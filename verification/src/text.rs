//! Strings as sequences of characters, and lists of strings as sequences of
//! such sequences.

use vstd::prelude::*;
use vstd::string::StringExecFns;

verus! {

/// The character sequences that a list of strings holds, in its order.
pub open spec fn texts(v: Seq<String>) -> Seq<Seq<char>> {
    v.map_values(|s: String| s@)
}

/// Selecting from one element more either appends that element or changes
/// nothing.
pub proof fn lemma_filter_next<A>(s: Seq<A>, i: int, p: spec_fn(A) -> bool)
    requires
        0 <= i < s.len(),
    ensures
        s.take(i + 1).filter(p) == if p(s[i]) {
            s.take(i).filter(p).push(s[i])
        } else {
            s.take(i).filter(p)
        },
{
    assert(s.take(i + 1) =~= s.take(i).push(s[i]));
    s.take(i).lemma_filter_push(s[i], p);
}

/// What the first `i + 1` elements hold is what the first `i` hold, and the
/// element at `i`.
pub proof fn lemma_take_contains<A>(s: Seq<A>, i: int)
    requires
        0 <= i < s.len(),
    ensures
        forall|x: A| #[trigger] s.take(i + 1).contains(x) <==> (s.take(i).contains(x) || x == s[i]),
{
    assert forall|x: A| #[trigger] s.take(i + 1).contains(x) <==> (s.take(i).contains(x) || x
        == s[i]) by {
        if s.take(i).contains(x) {
            let j = s.take(i).index_of(x);
            assert(s.take(i + 1)[j] == x);
        }
        if x == s[i] {
            assert(s.take(i + 1)[i] == x);
        }
        if s.take(i + 1).contains(x) {
            let j = s.take(i + 1).index_of(x);
            if j < i {
                assert(s.take(i)[j] == x);
            }
        }
    }
}

/// Whether `needle` occurs in `haystack`.
pub fn contains_text(haystack: &Vec<String>, needle: &String) -> (found: bool)
    ensures
        found == texts(haystack@).contains(needle@),
{
    let mut i: usize = 0;
    while i < haystack.len()
        invariant
            i <= haystack.len(),
            forall|j: int| 0 <= j < i ==> texts(haystack@)[j] != needle@,
        decreases haystack.len() - i,
    {
        if haystack[i] == *needle {
            assert(texts(haystack@)[i as int] == needle@);
            return true;
        }
        i += 1;
    }
    false
}

/// A copy of a list of strings.
pub fn clone_texts(v: &Vec<String>) -> (copy: Vec<String>)
    ensures
        texts(copy@) == texts(v@),
{
    let mut copy: Vec<String> = Vec::new();
    let mut i: usize = 0;
    while i < v.len()
        invariant
            i <= v.len(),
            copy.len() == i,
            forall|j: int| 0 <= j < i ==> copy@[j]@ == v@[j]@,
        decreases v.len() - i,
    {
        copy.push(v[i].clone());
        i += 1;
    }
    assert(texts(copy@) =~= texts(v@));
    copy
}

/// The ten decimal digits.
pub open spec fn decimal_digits() -> Seq<char> {
    seq!['0', '1', '2', '3', '4', '5', '6', '7', '8', '9']
}

/// A number in decimal notation, without leading zeros.
pub open spec fn decimal(n: nat) -> Seq<char>
    decreases n,
{
    if n < 10 {
        seq![decimal_digits()[n as int]]
    } else {
        decimal(n / 10).push(decimal_digits()[(n % 10) as int])
    }
}

/// The text of one decimal digit.
fn digit_text(d: u128) -> (t: &'static str)
    requires
        d < 10,
    ensures
        t@ == seq![decimal_digits()[d as int]],
{
    proof {
        reveal_strlit("0");
        reveal_strlit("1");
        reveal_strlit("2");
        reveal_strlit("3");
        reveal_strlit("4");
        reveal_strlit("5");
        reveal_strlit("6");
        reveal_strlit("7");
        reveal_strlit("8");
        reveal_strlit("9");
    }
    let t = if d == 0 {
        "0"
    } else if d == 1 {
        "1"
    } else if d == 2 {
        "2"
    } else if d == 3 {
        "3"
    } else if d == 4 {
        "4"
    } else if d == 5 {
        "5"
    } else if d == 6 {
        "6"
    } else if d == 7 {
        "7"
    } else if d == 8 {
        "8"
    } else {
        "9"
    };
    assert(t@ =~= seq![decimal_digits()[d as int]]);
    t
}

/// Writes a number in decimal notation.
pub fn decimal_text(n: u128) -> (t: String)
    ensures
        t@ == decimal(n as nat),
    decreases n,
{
    if n < 10 {
        String::from_str(digit_text(n))
    } else {
        let mut t = decimal_text(n / 10);
        t.append(digit_text(n % 10));
        assert(t@ =~= decimal(n as nat));
        t
    }
}

/// A truth value as the word `true` or `false`.
pub open spec fn truth(b: bool) -> Seq<char> {
    if b {
        "true"@
    } else {
        "false"@
    }
}

/// Writes a truth value as a word.
pub fn truth_text(b: bool) -> (t: String)
    ensures
        t@ == truth(b),
{
    if b {
        String::from_str("true")
    } else {
        String::from_str("false")
    }
}

/// The characters of a text.
pub fn chars_of(s: &str) -> (v: Vec<char>)
    ensures
        v@ == s@,
{
    broadcast use vstd::string::group_string_axioms;

    let mut v: Vec<char> = Vec::new();
    for c in it: s.chars()
        invariant
            it.seq() == s@,
            v@ == it.seq().take(it.index() as int),
    {
        v.push(c);
        assert(it.seq().take(it.index() + 1) =~= it.seq().take(it.index() as int).push(c));
    }
    assert(v@ =~= s@);
    v
}

/// Whether `text` begins with `prefix`.
pub open spec fn begins_with(text: Seq<char>, prefix: Seq<char>) -> bool {
    &&& prefix.len() <= text.len()
    &&& text.subrange(0, prefix.len() as int) == prefix
}

/// Whether `path` names the folder itself or something below it: the
/// folder's path, or that path followed by `/` and anything more. A path
/// that merely starts with the same characters, such as that of a sibling
/// with a longer name, does not lie in the folder.
pub open spec fn lies_in(folder: Seq<char>, path: Seq<char>) -> bool {
    path == folder || begins_with(path, folder.push('/'))
}

/// Whether `path` names `folder` itself or something below it.
pub fn path_lies_in(path: &str, folder: &str) -> (inside: bool)
    ensures
        inside == lies_in(folder@, path@),
{
    let p = chars_of(path);
    let f = chars_of(folder);
    if p.len() < f.len() {
        return false;
    }
    let mut k: usize = 0;
    while k < f.len() && p[k] == f[k]
        invariant
            f.len() <= p.len(),
            k <= f.len(),
            forall|t: int| 0 <= t < k ==> p@[t] == f@[t],
        decreases f.len() - k,
    {
        k += 1;
    }
    if k < f.len() {
        assert(!begins_with(p@, f@.push('/'))) by {
            if begins_with(p@, f@.push('/')) {
                assert(p@.subrange(0, f@.push('/').len() as int)[k as int] == f@.push('/')[k as int]);
            }
        }
        return false;
    }
    if p.len() == f.len() {
        assert(p@ =~= f@);
        return true;
    }
    let inside = p[f.len()] == '/';
    proof {
        if inside {
            assert(p@.subrange(0, f@.push('/').len() as int) =~= f@.push('/'));
        } else {
            if begins_with(p@, f@.push('/')) {
                assert(p@.subrange(0, f@.push('/').len() as int)[f@.len() as int] == f@.push('/')[f@.len() as int]);
            }
        }
    }
    inside
}

} // verus!
