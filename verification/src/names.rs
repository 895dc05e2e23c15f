//! Names of worlds, levels and scene nodes: the dictionary order in which
//! saved worlds and levels are listed, and the matching of node names against
//! lists of name fragments.
use vstd::prelude::*;
use vstd::string::StrSliceExecFns;

verus! {

broadcast use {vstd::seq_lib::group_to_multiset_ensures, vstd::multiset::group_multiset_axioms};

/// `a` comes no later than `b` in dictionary order by code point, a prefix
/// coming first.
pub open spec fn lex_le(a: Seq<char>, b: Seq<char>) -> bool
    decreases a.len(),
{
    if a.len() == 0 {
        true
    } else if b.len() == 0 {
        false
    } else if a[0] != b[0] {
        (a[0] as int) < (b[0] as int)
    } else {
        lex_le(a.drop_first(), b.drop_first())
    }
}

/// The names are listed in dictionary order.
pub open spec fn is_sorted(names: Seq<String>) -> bool {
    forall|i: int, j: int| 0 <= i < j < names.len() ==> lex_le(#[trigger] names[i]@, #[trigger] names[j]@)
}

/// `needle` occurs in `hay` starting at position `k`.
pub open spec fn occurs_at(needle: Seq<char>, hay: Seq<char>, k: int) -> bool {
    &&& 0 <= k
    &&& k + needle.len() <= hay.len()
    &&& hay.subrange(k, k + needle.len()) == needle
}

/// `needle` occurs somewhere in `hay`.
pub open spec fn contains_text(hay: Seq<char>, needle: Seq<char>) -> bool {
    exists|k: int| occurs_at(needle, hay, k)
}

/// Any two texts are ordered one way or the other.
pub proof fn lemma_lex_total(a: Seq<char>, b: Seq<char>)
    ensures
        lex_le(a, b) || lex_le(b, a),
    decreases a.len(),
{
    if a.len() > 0 && b.len() > 0 && a[0] == b[0] {
        lemma_lex_total(a.drop_first(), b.drop_first());
    }
}

/// Dictionary order is transitive.
pub proof fn lemma_lex_transitive(a: Seq<char>, b: Seq<char>, c: Seq<char>)
    requires
        lex_le(a, b),
        lex_le(b, c),
    ensures
        lex_le(a, c),
    decreases a.len(),
{
    if a.len() > 0 && b.len() > 0 && c.len() > 0 && a[0] == b[0] && b[0] == c[0] {
        lemma_lex_transitive(a.drop_first(), b.drop_first(), c.drop_first());
    }
}

/// Whether `a` comes no later than `b` in dictionary order.
pub fn lex_le_exec(a: &str, b: &str) -> (r: bool)
    ensures
        r == lex_le(a@, b@),
{
    let la = a.unicode_len();
    let lb = b.unicode_len();
    let mut i: usize = 0;
    proof {
        assert(a@.skip(0) =~= a@);
        assert(b@.skip(0) =~= b@);
    }
    while i < la && i < lb
        invariant
            la == a@.len(),
            lb == b@.len(),
            i <= la,
            i <= lb,
            lex_le(a@, b@) == lex_le(a@.skip(i as int), b@.skip(i as int)),
        decreases la - i,
    {
        let ca = a.get_char(i);
        let cb = b.get_char(i);
        if ca != cb {
            let ua: u32 = ca as u32;
            let ub: u32 = cb as u32;
            return ua < ub;
        }
        proof {
            assert(a@.skip(i as int).drop_first() =~= a@.skip(i + 1));
            assert(b@.skip(i as int).drop_first() =~= b@.skip(i + 1));
        }
        i = i + 1;
    }
    i == la
}

/// Whether `needle` occurs in `hay` starting at position `k`.
fn occurs_at_exec(hay: &str, needle: &str, k: usize) -> (r: bool)
    requires
        k + needle@.len() <= hay@.len(),
        hay@.len() <= usize::MAX,
    ensures
        r == occurs_at(needle@, hay@, k as int),
{
    let ln = needle.unicode_len();
    let mut j: usize = 0;
    while j < ln
        invariant
            ln == needle@.len(),
            k + ln <= hay@.len(),
            hay@.len() <= usize::MAX,
            j <= ln,
            forall|j2: int| 0 <= j2 < j ==> hay@[k + j2] == needle@[j2],
        decreases ln - j,
    {
        if hay.get_char(k + j) != needle.get_char(j) {
            proof {
                if occurs_at(needle@, hay@, k as int) {
                    assert(hay@.subrange(k as int, k + ln)[j as int] == hay@[k + j]);
                }
            }
            return false;
        }
        j = j + 1;
    }
    proof {
        assert(hay@.subrange(k as int, k + ln) =~= needle@);
    }
    true
}

/// Whether `needle` occurs somewhere in `hay`.
pub fn contains_text_exec(hay: &str, needle: &str) -> (r: bool)
    ensures
        r == contains_text(hay@, needle@),
{
    let lh = hay.unicode_len();
    let ln = needle.unicode_len();
    if ln > lh {
        proof {
            assert forall|k: int| !occurs_at(needle@, hay@, k) by {}
        }
        return false;
    }
    let last = lh - ln;
    let mut k: usize = 0;
    while k < last
        invariant
            lh == hay@.len(),
            ln == needle@.len(),
            last == lh - ln,
            k <= last,
            forall|k2: int| 0 <= k2 < k ==> !occurs_at(needle@, hay@, k2),
        decreases last - k,
    {
        if occurs_at_exec(hay, needle, k) {
            return true;
        }
        k = k + 1;
    }
    if occurs_at_exec(hay, needle, last) {
        return true;
    }
    proof {
        assert forall|k2: int| !occurs_at(needle@, hay@, k2) by {
            if 0 <= k2 && k2 + needle@.len() <= hay@.len() {
                assert(k2 <= last);
            }
        }
    }
    false
}

/// Whether `name` contains one of the fragments in `fragments`: the test by
/// which scene nodes are picked out by name.
pub fn name_is_listed(name: &str, fragments: &Vec<String>) -> (r: bool)
    ensures
        r == exists|i: int| 0 <= i < fragments@.len() && contains_text(name@, #[trigger] fragments@[i]@),
{
    let mut i: usize = 0;
    while i < fragments.len()
        invariant
            i <= fragments@.len(),
            forall|i2: int| 0 <= i2 < i ==> !contains_text(name@, #[trigger] fragments@[i2]@),
        decreases fragments@.len() - i,
    {
        if contains_text_exec(name, fragments[i].as_str()) {
            return true;
        }
        i = i + 1;
    }
    false
}

proof fn lemma_insert_to_multiset<A>(s: Seq<A>, i: int, x: A)
    requires
        0 <= i <= s.len(),
    ensures
        s.insert(i, x).to_multiset() == s.to_multiset().insert(x),
{
    let t = s.insert(i, x);
    assert(t.remove(i) =~= s);
    assert(t[i] == x);
    assert(t.contains(x));
    assert(t.to_multiset() =~= s.to_multiset().insert(x));
}

/// The names in dictionary order: the same names, each as often as given,
/// sorted.
pub fn sort_names(names: Vec<String>) -> (sorted: Vec<String>)
    ensures
        is_sorted(sorted@),
        sorted@.to_multiset() == names@.to_multiset(),
{
    let ghost all = names@;
    let mut rest = names;
    let mut out: Vec<String> = Vec::new();
    proof {
        assert(out@.to_multiset().add(rest@.to_multiset()) =~= all.to_multiset());
    }
    while rest.len() > 0
        invariant
            is_sorted(out@),
            out@.to_multiset().add(rest@.to_multiset()) == all.to_multiset(),
        decreases rest@.len(),
    {
        let ghost rest_before = rest@;
        let x = rest.pop().unwrap();
        proof {
            assert(rest_before =~= rest@.push(x));
        }
        let mut p: usize = 0;
        let mut searching = true;
        while searching && p < out.len()
            invariant
                is_sorted(out@),
                p <= out@.len(),
                forall|k: int| 0 <= k < p ==> lex_le(#[trigger] out@[k]@, x@),
                !searching ==> p < out@.len() && !lex_le(out@[p as int]@, x@),
            decreases out@.len() - p + (if searching { 1int } else { 0int }),
        {
            if lex_le_exec(out[p].as_str(), x.as_str()) {
                p = p + 1;
            } else {
                searching = false;
            }
        }
        let ghost before = out@;
        proof {
            if p < before.len() {
                lemma_lex_total(before[p as int]@, x@);
            }
            assert forall|k: int| p <= k < before.len() implies lex_le(x@, #[trigger] before[k]@) by {
                if k > p {
                    lemma_lex_transitive(x@, before[p as int]@, before[k]@);
                }
            }
        }
        out.insert(p, x);
        proof {
            let after = out@;
            assert(after == before.insert(p as int, x));
            assert forall|i: int, j: int| 0 <= i < j < after.len() implies lex_le(
                #[trigger] after[i]@,
                #[trigger] after[j]@,
            ) by {
                if j < p {
                    assert(after[i] == before[i] && after[j] == before[j]);
                } else if j == p {
                    assert(after[i] == before[i]);
                } else if i < p {
                    assert(after[i] == before[i] && after[j] == before[j - 1]);
                } else if i == p {
                    assert(after[j] == before[j - 1]);
                } else {
                    assert(after[i] == before[i - 1] && after[j] == before[j - 1]);
                }
            }
            lemma_insert_to_multiset(before, p as int, x);
            assert(out@.to_multiset().add(rest@.to_multiset()) =~= all.to_multiset());
        }
    }
    out
}

/// The position of the last name in `names` equal to `n`, if any.
pub open spec fn last_named(names: Seq<String>, n: Seq<char>) -> Option<int>
    decreases names.len(),
{
    if names.len() == 0 {
        None
    } else if names.last()@ == n {
        Some(names.len() - 1)
    } else {
        last_named(names.drop_last(), n)
    }
}

proof fn lemma_last_named(names: Seq<String>, n: Seq<char>)
    ensures
        match last_named(names, n) {
            Some(j) => 0 <= j < names.len() && names[j]@ == n && forall|k: int|
                j < k < names.len() ==> names[k]@ != n,
            None => forall|k: int| 0 <= k < names.len() ==> names[k]@ != n,
        },
    decreases names.len(),
{
    if names.len() > 0 && names.last()@ != n {
        lemma_last_named(names.drop_last(), n);
        assert forall|k: int| 0 <= k < names.len() - 1 implies names[k] == names.drop_last()[k] by {}
    }
}

/// Which listed body each reference names: the last body listed under that
/// name, wherever it stands in the list, or none when no body has the name.
pub fn resolve_names(names: &Vec<String>, refs: &Vec<Option<String>>) -> (r: Vec<Option<usize>>)
    ensures
        r@.len() == refs@.len(),
        forall|i: int|
            #![trigger r@[i]]
            0 <= i < r@.len() ==> match refs@[i] {
                None => r@[i] is None,
                Some(n) => match r@[i] {
                    Some(j) => j < names@.len() && names@[j as int]@ == n@ && forall|k: int|
                        j < k < names@.len() ==> names@[k]@ != n@,
                    None => forall|k: int| 0 <= k < names@.len() ==> names@[k]@ != n@,
                },
            },
        forall|i: int|
            #![trigger r@[i]]
            0 <= i < r@.len() ==> match refs@[i] {
                None => r@[i] is None,
                Some(n) => match r@[i] {
                    Some(j) => last_named(names@, n@) == Some(j as int),
                    None => last_named(names@, n@) is None,
                },
            },
{
    let mut r: Vec<Option<usize>> = Vec::new();
    let mut i: usize = 0;
    while i < refs.len()
        invariant
            i <= refs@.len(),
            r@.len() == i,
            forall|i2: int|
                #![trigger r@[i2]]
                0 <= i2 < i ==> match refs@[i2] {
                    None => r@[i2] is None,
                    Some(n) => match r@[i2] {
                        Some(j) => last_named(names@, n@) == Some(j as int),
                        None => last_named(names@, n@) is None,
                    },
                },
        decreases refs@.len() - i,
    {
        let found: Option<usize> = match &refs[i] {
            None => None,
            Some(n) => {
                let mut j: usize = names.len();
                let mut hit: Option<usize> = None;
                proof {
                    assert(names@.take(j as int) =~= names@);
                }
                while j > 0
                    invariant_except_break
                        hit is None,
                    invariant
                        j <= names@.len(),
                        last_named(names@, n@) == last_named(names@.take(j as int), n@),
                    ensures
                        match hit {
                            Some(h) => last_named(names@, n@) == Some(h as int),
                            None => last_named(names@, n@) is None,
                        },
                    decreases j,
                {
                    proof {
                        assert(names@.take(j as int).drop_last() =~= names@.take(j - 1));
                        assert(names@.take(j as int).last() == names@[j - 1]);
                    }
                    if names[j - 1] == *n {
                        hit = Some(j - 1);
                        break;
                    }
                    j = j - 1;
                }
                proof {
                    if hit is None {
                        assert(names@.take(0) =~= Seq::<String>::empty());
                    }
                }
                hit
            },
        };
        r.push(found);
        i = i + 1;
    }
    proof {
        assert forall|i2: int| #![trigger r@[i2]] 0 <= i2 < r@.len() implies match refs@[i2] {
            None => r@[i2] is None,
            Some(n) => match r@[i2] {
                Some(j) => j < names@.len() && names@[j as int]@ == n@ && forall|k: int|
                    j < k < names@.len() ==> names@[k]@ != n@,
                None => forall|k: int| 0 <= k < names@.len() ==> names@[k]@ != n@,
            },
        } by {
            if let Some(n) = refs@[i2] {
                lemma_last_named(names@, n@);
            }
        }
    }
    r
}

/// A reference finds its body wherever the body is listed, before or after the
/// referring one, and the last of several bodies with the name wins.
pub proof fn law_listed_names_resolve(names: Seq<String>, n: Seq<char>, k: int)
    requires
        0 <= k < names.len(),
        names[k]@ == n,
    ensures
        last_named(names, n) matches Some(j) && k <= j < names.len() && names[j]@ == n,
{
    lemma_last_named(names, n);
}

/// Every character of `needle`, the last one included, equals the character
/// of `hay` at the same offset from `k`.
pub open spec fn chars_match_at(hay: Seq<char>, needle: Seq<char>, k: int) -> bool {
    forall|j: int| 0 <= j < needle.len() ==> #[trigger] hay[k + j] == needle[j]
}

/// A text occurs in another exactly when, from some position on, every one of
/// its characters (the last included) matches the other text's character at the
/// same offset.
pub proof fn law_contains_text_matches_every_character(hay: Seq<char>, needle: Seq<char>)
    ensures
        contains_text(hay, needle) <==> exists|k: int|
            0 <= k && k + needle.len() <= hay.len() && #[trigger] chars_match_at(hay, needle, k),
{
    if contains_text(hay, needle) {
        let k = choose|k: int| occurs_at(needle, hay, k);
        assert forall|j: int| 0 <= j < needle.len() implies #[trigger] hay[k + j] == needle[j] by {
            assert(hay.subrange(k, k + needle.len())[j] == hay[k + j]);
        }
        assert(chars_match_at(hay, needle, k));
    }
    if exists|k: int|
        0 <= k && k + needle.len() <= hay.len() && #[trigger] chars_match_at(hay, needle, k) {
        let k = choose|k: int|
            0 <= k && k + needle.len() <= hay.len() && #[trigger] chars_match_at(hay, needle, k);
        assert forall|j: int| 0 <= j < needle.len() implies hay.subrange(k, k + needle.len())[j]
            == needle[j] by {
            assert(hay[k + j] == needle[j]);
        }
        assert(hay.subrange(k, k + needle.len()) =~= needle);
        assert(occurs_at(needle, hay, k));
    }
}

/// A fragment longer than the name never occurs in it, and every text occurs
/// in itself and in any text that extends it on either side.
pub proof fn law_contains_text_bounds(hay: Seq<char>, needle: Seq<char>, front: Seq<char>, back: Seq<char>)
    ensures
        needle.len() > hay.len() ==> !contains_text(hay, needle),
        contains_text(front + needle + back, needle),
{
    let whole = front + needle + back;
    assert(whole.subrange(front.len() as int, (front.len() + needle.len()) as int) =~= needle);
    assert(occurs_at(needle, whole, front.len() as int));
}

/// Dictionary order is decided by the first position where two texts differ,
/// by code point; a text comes before every text it is a prefix of.
pub proof fn law_lex_first_difference(a: Seq<char>, b: Seq<char>, k: int)
    requires
        0 <= k,
        k <= a.len(),
        k <= b.len(),
        a.take(k) == b.take(k),
    ensures
        k == a.len() ==> lex_le(a, b),
        k < a.len() && k < b.len() && (a[k] as int) < (b[k] as int) ==> lex_le(a, b) && !lex_le(
            b,
            a,
        ),
    decreases k,
{
    if k > 0 {
        assert(a[0] == a.take(k)[0]);
        assert(b[0] == b.take(k)[0]);
        assert(a.drop_first().take(k - 1) =~= a.take(k).drop_first());
        assert(b.drop_first().take(k - 1) =~= b.take(k).drop_first());
        law_lex_first_difference(a.drop_first(), b.drop_first(), k - 1);
    }
}

} // verus!
