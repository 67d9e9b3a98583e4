//! Small verified helpers on strings, seen as sequences of characters.
use vstd::prelude::*;
use vstd::string::StrSliceExecFns;
use vstd::string::StringExecFns;

verus! {

/// The characters of `s`, in order.
pub fn chars_of(s: &str) -> (v: Vec<char>)
    ensures
        v@ == s@,
{
    let mut v: Vec<char> = Vec::new();
    for c in it: s.chars()
        invariant
            v@ == it.seq().take(it.index() as int),
            it.seq() == s@,
    {
        v.push(c);
    }
    v
}

/// Whether two strings hold the same characters.
pub fn str_eq(a: &str, b: &str) -> (r: bool)
    ensures
        r == (a@ == b@),
{
    let x = a.to_owned();
    let y = b.to_owned();
    x == y
}

/// `a` followed by `b`.
pub fn concat(a: &str, b: &str) -> (r: String)
    ensures
        r@ == a@ + b@,
{
    let mut r = a.to_owned();
    r.append(b);
    r
}

/// Whether `s` begins with `prefix`.
pub open spec fn has_prefix(s: Seq<char>, prefix: Seq<char>) -> bool {
    prefix.len() <= s.len() && s.take(prefix.len() as int) == prefix
}

/// The decimal digit that stands for `d`, for `d` below ten.
pub open spec fn digit_char(d: nat) -> char {
    if d == 0 {
        '0'
    } else if d == 1 {
        '1'
    } else if d == 2 {
        '2'
    } else if d == 3 {
        '3'
    } else if d == 4 {
        '4'
    } else if d == 5 {
        '5'
    } else if d == 6 {
        '6'
    } else if d == 7 {
        '7'
    } else if d == 8 {
        '8'
    } else {
        '9'
    }
}

/// The decimal numeral of `n`: most significant digit first, no leading
/// zero, `"0"` for zero.
pub open spec fn decimal_digits(n: nat) -> Seq<char>
    decreases n,
{
    if n < 10 {
        seq![digit_char(n)]
    } else {
        decimal_digits(n / 10).push(digit_char(n % 10))
    }
}

/// The decimal numeral of `n`.
///
/// Trusted: calls `itoa::Buffer::format`, which writes an integer in base
/// ten, and claims that what it wrote is `decimal_digits(n)`.
#[verifier::external_body]
pub(crate) fn decimal(n: u64) -> (r: String)
    ensures
        r@ == decimal_digits(n as nat),
{
    let mut buffer = itoa::Buffer::new();
    buffer.format(n).to_owned()
}

/// Whether a character has the Unicode property `White_Space`.
pub uninterp spec fn white_space(c: char) -> bool;

/// Whether `c` is white space.
///
/// Trusted: calls `char::is_whitespace` and names its answer
/// `white_space(c)`; nothing else is claimed of it.
#[verifier::external_body]
pub(crate) fn is_whitespace(c: char) -> (r: bool)
    ensures
        r == white_space(c),
{
    c.is_whitespace()
}

/// `s` without its leading white space.
pub open spec fn trim_start(s: Seq<char>) -> Seq<char>
    decreases s.len(),
{
    if s.len() > 0 && white_space(s[0]) {
        trim_start(s.drop_first())
    } else {
        s
    }
}

/// `s` without its trailing white space.
pub open spec fn trim_end(s: Seq<char>) -> Seq<char>
    decreases s.len(),
{
    if s.len() > 0 && white_space(s.last()) {
        trim_end(s.drop_last())
    } else {
        s
    }
}

/// `s` without leading and trailing white space.
pub open spec fn trimmed(s: Seq<char>) -> Seq<char> {
    trim_end(trim_start(s))
}

/// Where `v` without leading and trailing white space starts and ends.
pub fn trim_bounds(v: &Vec<char>) -> (r: (usize, usize))
    ensures
        r.0 <= r.1 <= v.len(),
        v@.subrange(r.0 as int, r.1 as int) == trimmed(v@),
{
    let mut a: usize = 0;
    proof {
        assert(v@.skip(0) =~= v@);
    }
    while a < v.len() && is_whitespace(v[a])
        invariant
            a <= v.len(),
            trim_start(v@) == trim_start(v@.skip(a as int)),
        decreases v.len() - a,
    {
        proof {
            assert(v@.skip(a as int).drop_first() =~= v@.skip(a + 1));
        }
        a += 1;
    }
    proof {
        assert(v@.skip(a as int).len() > 0 ==> v@.skip(a as int)[0] == v@[a as int]);
    }
    let mut b: usize = v.len();
    proof {
        assert(v@.skip(a as int) =~= v@.subrange(a as int, v@.len() as int));
    }
    while b > a && is_whitespace(v[b - 1])
        invariant
            a <= b <= v.len(),
            trim_start(v@) == v@.skip(a as int),
            trim_end(v@.skip(a as int)) == trim_end(v@.subrange(a as int, b as int)),
        decreases b,
    {
        proof {
            assert(v@.subrange(a as int, b as int).drop_last() =~= v@.subrange(
                a as int,
                b - 1,
            ));
        }
        b -= 1;
    }
    proof {
        let t = v@.subrange(a as int, b as int);
        assert(t.len() > 0 ==> t.last() == v@[b - 1]);
    }
    (a, b)
}

/// The characters of `v` without leading and trailing white space.
pub fn trim(v: &Vec<char>) -> (r: Vec<char>)
    ensures
        r@ == trimmed(v@),
{
    let (a, b) = trim_bounds(v);
    let mut r: Vec<char> = Vec::new();
    let mut i: usize = a;
    while i < b
        invariant
            a <= i <= b <= v.len(),
            r@ == v@.subrange(a as int, i as int),
        decreases b - i,
    {
        r.push(v[i]);
        proof {
            assert(r@ =~= v@.subrange(a as int, i + 1));
        }
        i += 1;
    }
    r
}

/// Whether `s` holds nothing but white space.
pub fn is_blank(s: &str) -> (r: bool)
    ensures
        r == (trimmed(s@).len() == 0),
{
    let v = chars_of(s);
    let t = trim(&v);
    t.len() == 0
}

/// The length of the run of characters other than a space at the start of `s`.
pub open spec fn word_len(s: Seq<char>) -> nat
    decreases s.len(),
{
    if s.len() == 0 || s[0] == ' ' {
        0
    } else {
        1 + word_len(s.drop_first())
    }
}

/// The words of `s`: its maximal runs of characters other than a space, in
/// order. Empty runs are no words.
pub open spec fn words(s: Seq<char>) -> Seq<Seq<char>>
    decreases s.len(),
{
    if s.len() == 0 {
        Seq::empty()
    } else if s[0] == ' ' {
        words(s.drop_first())
    } else if word_len(s) == 0 || word_len(s) > s.len() {
        Seq::empty()
    } else {
        seq![s.take(word_len(s) as int)] + words(s.skip(word_len(s) as int))
    }
}

/// The words of `s`, each as a string of its own.
pub fn split_words(s: &str) -> (out: Vec<String>)
    ensures
        out.deep_view() == words(s@),
{
    let v = chars_of(s);
    let mut out: Vec<String> = Vec::new();
    let mut i: usize = 0;
    proof {
        assert(v@.skip(0) =~= v@);
        assert(out.deep_view() =~= Seq::<Seq<char>>::empty());
    }
    while i < v.len()
        invariant
            v@ == s@,
            i <= v.len(),
            words(s@) == out.deep_view() + words(v@.skip(i as int)),
        decreases v.len() - i,
    {
        if v[i] == ' ' {
            proof {
                assert(v@.skip(i as int).drop_first() =~= v@.skip(i + 1));
            }
            i += 1;
        } else {
            let mut j: usize = i + 1;
            proof {
                assert(v@.skip(i as int).drop_first() =~= v@.skip(i + 1));
            }
            while j < v.len() && v[j] != ' '
                invariant
                    i < j <= v.len(),
                    word_len(v@.skip(i as int)) == (j - i) + word_len(v@.skip(j as int)),
                decreases v.len() - j,
            {
                proof {
                    assert(v@.skip(j as int).drop_first() =~= v@.skip(j + 1));
                }
                j += 1;
            }
            let w = s.substring_char(i, j).to_owned();
            let ghost before = out.deep_view();
            proof {
                let t = v@.skip(i as int);
                assert(word_len(v@.skip(j as int)) == 0);
                assert(word_len(t) == j - i);
                assert(t.take(word_len(t) as int) =~= v@.subrange(i as int, j as int));
                assert(t.skip(word_len(t) as int) =~= v@.skip(j as int));
                assert(words(t) == seq![w@] + words(v@.skip(j as int)));
            }
            out.push(w);
            proof {
                assert(out.deep_view() =~= before.push(w@));
                assert(before.push(w@) + words(v@.skip(j as int)) =~= before + (seq![w@] + words(
                    v@.skip(j as int),
                )));
            }
            i = j;
        }
    }
    proof {
        assert(words(v@.skip(i as int)) =~= Seq::<Seq<char>>::empty());
        assert(out.deep_view() + Seq::<Seq<char>>::empty() =~= out.deep_view());
    }
    out
}

/// The place of the first `x` in `s`; -1 where there is none.
pub open spec fn index_of(s: Seq<Seq<char>>, x: Seq<char>) -> int
    decreases s.len(),
{
    if s.len() == 0 {
        -1
    } else if s[0] == x {
        0
    } else if index_of(s.drop_first(), x) < 0 {
        -1
    } else {
        index_of(s.drop_first(), x) + 1
    }
}

/// `index_of` gives the first place of `x`, and -1 exactly where `s` does
/// not hold `x`.
pub proof fn lemma_index_of(s: Seq<Seq<char>>, x: Seq<char>)
    ensures
        -1 <= index_of(s, x) < s.len(),
        index_of(s, x) >= 0 ==> s[index_of(s, x)] == x,
        forall|i: int| 0 <= i < s.len() && (index_of(s, x) < 0 || i < index_of(s, x)) ==> s[i] != x,
        (index_of(s, x) >= 0) == s.contains(x),
    decreases s.len(),
{
    if s.len() > 0 && s[0] != x {
        let t = s.drop_first();
        lemma_index_of(t, x);
        assert forall|i: int|
            0 <= i < s.len() && (index_of(s, x) < 0 || i < index_of(s, x)) implies s[i] != x by {
            if i > 0 {
                assert(s[i] == t[i - 1]);
            }
        }
        if index_of(t, x) >= 0 {
            assert(s[index_of(t, x) + 1] == x);
        }
        if s.contains(x) {
            let i = choose|i: int| 0 <= i < s.len() && s[i] == x;
            assert(t[i - 1] == x);
        }
    }
}

/// The place of the first string of `v` that reads `x`.
pub fn position(v: &Vec<String>, x: &str) -> (r: Option<usize>)
    ensures
        match r {
            Some(i) => i == index_of(v.deep_view(), x@),
            None => index_of(v.deep_view(), x@) == -1,
        },
{
    let mut i: usize = 0;
    let ghost s = v.deep_view();
    proof {
        assert(s.skip(0) =~= s);
    }
    while i < v.len()
        invariant
            i <= v.len(),
            s == v.deep_view(),
            index_of(s.skip(i as int), x@) < 0 ==> index_of(s, x@) == -1,
            index_of(s.skip(i as int), x@) >= 0 ==> index_of(s, x@) == i + index_of(
                s.skip(i as int),
                x@,
            ),
        decreases v.len() - i,
    {
        proof {
            assert(s.skip(i as int)[0] == v[i as int]@);
            assert(s.skip(i as int).drop_first() =~= s.skip(i + 1));
        }
        if str_eq(v[i].as_str(), x) {
            return Some(i);
        }
        i += 1;
    }
    None
}

/// Whether a string of `v` reads `x`.
pub fn contains_str(v: &Vec<String>, x: &str) -> (r: bool)
    ensures
        r == v.deep_view().contains(x@),
{
    proof {
        lemma_index_of(v.deep_view(), x@);
    }
    position(v, x).is_some()
}

/// A copy of `v`.
pub fn clone_strings(v: &Vec<String>) -> (r: Vec<String>)
    ensures
        r.deep_view() == v.deep_view(),
{
    let mut r: Vec<String> = Vec::new();
    let mut i: usize = 0;
    while i < v.len()
        invariant
            i <= v.len(),
            r.len() == i,
            forall|j: int| 0 <= j < i ==> r[j]@ == v[j]@,
        decreases v.len() - i,
    {
        r.push(v[i].clone());
        i += 1;
    }
    proof {
        assert(r.deep_view() =~= v.deep_view());
    }
    r
}

/// `s` with `x` at its end, unless `s` holds `x` already.
pub open spec fn add_unique(s: Seq<Seq<char>>, x: Seq<char>) -> Seq<Seq<char>> {
    if s.contains(x) {
        s
    } else {
        s.push(x)
    }
}

/// `s` without the first `x` it holds.
pub open spec fn remove_first(s: Seq<Seq<char>>, x: Seq<char>) -> Seq<Seq<char>> {
    if index_of(s, x) < 0 {
        s
    } else {
        s.remove(index_of(s, x))
    }
}

/// Puts `x` at the end of `v`, unless a string of `v` reads the same.
pub fn push_unique(v: &mut Vec<String>, x: String)
    ensures
        final(v).deep_view() == add_unique(old(v).deep_view(), x@),
{
    if !contains_str(v, x.as_str()) {
        let ghost before = v.deep_view();
        v.push(x);
        proof {
            assert(v.deep_view() =~= before.push(x@));
        }
    }
}

/// Takes the first string that reads `x` out of `v`.
pub fn remove_first_str(v: &mut Vec<String>, x: &str)
    ensures
        final(v).deep_view() == remove_first(old(v).deep_view(), x@),
{
    proof {
        lemma_index_of(v.deep_view(), x@);
    }
    match position(v, x) {
        Some(i) => {
            let ghost before = v.deep_view();
            let _ = v.remove(i);
            proof {
                assert(v.deep_view() =~= before.remove(i as int));
            }
        },
        None => {},
    }
}

/// In a list that holds nothing twice, `add_unique` keeps that so, and
/// what it gives holds `x` and what the list held.
pub proof fn lemma_add_unique(s: Seq<Seq<char>>, x: Seq<char>)
    requires
        s.no_duplicates(),
    ensures
        add_unique(s, x).no_duplicates(),
        add_unique(s, x).contains(x),
        forall|y: Seq<char>| #[trigger] add_unique(s, x).contains(y) == (s.contains(y) || y == x),
{
    let t = add_unique(s, x);
    if s.contains(x) {
    } else {
        assert(t[s.len() as int] == x);
        assert forall|a: int, b: int| 0 <= a < b < t.len() implies t[a] != t[b] by {
            if b == s.len() {
                assert(s[a] == t[a]);
            } else {
                assert(s[a] == t[a] && s[b] == t[b]);
            }
        }
    }
    assert forall|y: Seq<char>| #[trigger] t.contains(y) == (s.contains(y) || y == x) by {
        if t.contains(y) {
            let i = choose|i: int| 0 <= i < t.len() && t[i] == y;
            if i < s.len() {
                assert(s[i] == y);
            }
        }
        if s.contains(y) {
            let i = choose|i: int| 0 <= i < s.len() && s[i] == y;
            assert(t[i] == y);
        }
    }
}

/// In a list that holds nothing twice, `remove_first` keeps that so, and
/// what it gives holds what the list held but `x`.
pub proof fn lemma_remove_first(s: Seq<Seq<char>>, x: Seq<char>)
    requires
        s.no_duplicates(),
    ensures
        remove_first(s, x).no_duplicates(),
        !remove_first(s, x).contains(x),
        forall|y: Seq<char>|
            #[trigger] remove_first(s, x).contains(y) == (s.contains(y) && y != x),
{
    lemma_index_of(s, x);
    let t = remove_first(s, x);
    let r = index_of(s, x);
    if r >= 0 {
        assert forall|a: int, b: int| 0 <= a < b < t.len() implies t[a] != t[b] by {
            let a1 = if a < r {
                a
            } else {
                a + 1
            };
            let b1 = if b < r {
                b
            } else {
                b + 1
            };
            assert(t[a] == s[a1] && t[b] == s[b1]);
        }
    }
    assert forall|y: Seq<char>| #[trigger] t.contains(y) == (s.contains(y) && y != x) by {
        if t.contains(y) {
            let i = choose|i: int| 0 <= i < t.len() && t[i] == y;
            if r >= 0 {
                let i1 = if i < r {
                    i
                } else {
                    i + 1
                };
                assert(s[i1] == y);
                assert(s[r] == x);
            } else {
                assert(s[i] == y);
            }
        }
        if s.contains(y) && y != x {
            let i = choose|i: int| 0 <= i < s.len() && s[i] == y;
            if r >= 0 {
                let i1 = if i < r {
                    i
                } else {
                    i - 1
                };
                assert(t[i1] == y);
            } else {
                assert(t[i] == y);
            }
        }
    }
}

/// What `add_unique` gives holds `x`.
pub proof fn lemma_add_unique_holds(s: Seq<Seq<char>>, x: Seq<char>)
    ensures
        add_unique(s, x).contains(x),
        add_unique(add_unique(s, x), x) == add_unique(s, x),
{
    if !s.contains(x) {
        assert(s.push(x)[s.len() as int] == x);
    }
}

/// A text whose first and last characters are no white space is trimmed
/// as it stands.
pub proof fn lemma_trimmed_plain(s: Seq<char>)
    requires
        s.len() > 0,
        !white_space(s[0]),
        !white_space(s.last()),
    ensures
        trimmed(s) == s,
{
}

} // verus!
