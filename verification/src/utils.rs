//! Pacing helpers, the feed fingerprint and the link extractor.
use crate::filter::{filters, title_filtered};
use crate::text::{chars_of, decimal, decimal_digits};
use std::collections::hash_map::DefaultHasher;
use std::hash::Hasher;
use vstd::arithmetic::power::*;
use vstd::prelude::*;
use vstd::std_specs::hash::DefaultHasherAdditionalSpecFns;
use vstd::string::StrSliceExecFns;

verus! {

/// A power of at least two is larger than its exponent.
pub proof fn lemma_pow_exceeds_exponent(b: nat, e: nat)
    requires
        b > 1,
    ensures
        pow(b as int, e) > e,
    decreases e,
{
    reveal(pow);
    if e > 0 {
        lemma_pow_exceeds_exponent(b, (e - 1) as nat);
        let p = pow(b as int, (e - 1) as nat);
        assert(b * p >= 2 * p) by (nonlinear_arith)
            requires
                b >= 2,
                p >= 0,
        ;
    }
}

/// An exponential schedule: the first value is the base, each later one the
/// one before it times the base.
pub struct ExponentRegress {
    base: usize,
    count: usize,
}

impl ExponentRegress {
    /// The base of the schedule.
    pub closed spec fn base(&self) -> nat {
        self.base as nat
    }

    /// The exponent of the value that comes next.
    pub closed spec fn exponent(&self) -> nat {
        self.count as nat
    }

    /// The base is at least two and the exponent at least one.
    pub closed spec fn wf(&self) -> bool {
        self.base > 1 && self.count >= 1
    }

    /// The value that comes next.
    pub open spec fn next_value(&self) -> int {
        pow(self.base() as int, self.exponent())
    }

    /// A schedule that starts at `base`.
    pub fn from_base(base: usize) -> (r: Self)
        requires
            base > 1,
        ensures
            r.wf(),
            r.base() == base,
            r.exponent() == 1,
    {
        ExponentRegress { base, count: 1 }
    }

    /// The next value, where it fits in `usize`; the schedule then moves on
    /// by one. Where it does not fit, `None`, and the schedule stays.
    pub fn try_get(&mut self) -> (r: Option<usize>)
        requires
            old(self).wf(),
        ensures
            final(self).wf(),
            final(self).base() == old(self).base(),
            old(self).next_value() <= usize::MAX ==> r == Some(old(self).next_value() as usize)
                && final(self).exponent() == old(self).exponent() + 1,
            old(self).next_value() > usize::MAX ==> r is None && final(self).exponent() == old(
                self,
            ).exponent(),
    {
        let mut result: usize = self.base;
        let mut i: usize = 1;
        proof {
            lemma_pow1(self.base as int);
        }
        while i < self.count
            invariant
                self.wf(),
                1 <= i <= self.count,
                result == pow(self.base as int, i as nat),
            decreases self.count - i,
        {
            proof {
                reveal(pow);
                assert(pow(self.base as int, (i + 1) as nat) == self.base * pow(
                    self.base as int,
                    i as nat,
                ));
                assert(self.base * result == result * self.base) by (nonlinear_arith);
            }
            match result.checked_mul(self.base) {
                Some(v) => {
                    result = v;
                },
                None => {
                    proof {
                        lemma_pow_increases(self.base as nat, (i + 1) as nat, self.count as nat);
                    }
                    return None;
                },
            }
            i += 1;
        }
        proof {
            lemma_pow_exceeds_exponent(self.base as nat, self.count as nat);
        }
        self.count = self.count + 1;
        Some(result)
    }

    /// The next value; the schedule then moves on by one.
    pub fn get(&mut self) -> (r: usize)
        requires
            old(self).wf(),
            old(self).next_value() <= usize::MAX,
        ensures
            final(self).wf(),
            r == old(self).next_value(),
            final(self).base() == old(self).base(),
            final(self).exponent() == old(self).exponent() + 1,
    {
        proof {
            lemma_pow_positive(self.base as int, self.count as nat);
        }
        match self.try_get() {
            Some(v) => v,
            None => 0,
        }
    }

    /// Moves the schedule on by `count` values without handing them out.
    pub fn forward(&mut self, count: usize)
        requires
            old(self).wf(),
            old(self).exponent() + count <= usize::MAX,
        ensures
            final(self).wf(),
            final(self).base() == old(self).base(),
            final(self).exponent() == old(self).exponent() + count,
    {
        self.count = self.count + count;
    }

    /// Starts the schedule again: the next value is the base.
    pub fn reset(&mut self)
        requires
            old(self).wf(),
        ensures
            final(self).wf(),
            final(self).base() == old(self).base(),
            final(self).exponent() == 1,
    {
        self.count = 1;
    }
}

/// The exponent of a schedule that stood at exponent `e` and has handed out
/// `n` values since.
pub open spec fn exponent_after(e: nat, n: nat) -> nat
    decreases n,
{
    if n == 0 {
        e
    } else {
        exponent_after(e, (n - 1) as nat) + 1
    }
}

/// The `n`-th value (counted from one) that a schedule of base `b` hands out
/// when it stands at exponent `e`.
pub open spec fn nth_value(b: nat, e: nat, n: nat) -> int {
    pow(b as int, exponent_after(e, (n - 1) as nat))
}

/// A fresh schedule of base `b`, and one that was just reset, hand out `b`
/// to the power `n` at their `n`-th call: both stand at exponent one, and
/// each call raises the exponent by one.
pub proof fn lemma_nth_value_is_power(b: nat, n: nat)
    requires
        n >= 1,
    ensures
        nth_value(b, 1, n) == pow(b as int, n),
        nth_value(b, 1, 1) == b,
{
    lemma_exponent_after(1, (n - 1) as nat);
    lemma_pow1(b as int);
}

/// Handing out `n` values raises the exponent by `n`.
pub proof fn lemma_exponent_after(e: nat, n: nat)
    ensures
        exponent_after(e, n) == e + n,
    decreases n,
{
    if n > 0 {
        lemma_exponent_after(e, (n - 1) as nat);
    }
}

/// The pause, in milliseconds, between two tickets of a throttle that was
/// given none.
pub const DEFAULT_THROTTLE_UNIT_MS: u64 = 1000;

/// The number of the ticket that a throttle of `pieces` pieces hands out
/// while `out` tickets are out.
pub open spec fn ticket_number(pieces: nat, out: nat) -> nat {
    out % pieces
}

/// Spreads work over a period: each ticket waits a multiple of the unit, and
/// the multiples run round through the pieces.
pub struct Throttle {
    pieces: usize,
    counter: usize,
    unit: u64,
}

/// A ticket of a throttle: how many units its holder waits.
#[must_use]
pub struct Opportunity {
    n: usize,
    u: u64,
}

impl Throttle {
    /// The number of pieces the period is cut into.
    pub closed spec fn pieces(&self) -> nat {
        self.pieces as nat
    }

    /// The number of tickets handed out and not yet given back, modulo the
    /// range of `usize`.
    pub closed spec fn counter(&self) -> nat {
        self.counter as nat
    }

    /// The pause between two tickets, in milliseconds.
    pub closed spec fn unit(&self) -> nat {
        self.unit as nat
    }

    /// There is at least one piece.
    pub closed spec fn wf(&self) -> bool {
        self.pieces > 0
    }

    /// A throttle of `pieces` pieces with no ticket out. The unit is
    /// `unit` milliseconds, one second where none is given.
    pub fn new(pieces: usize, unit: Option<u64>) -> (r: Self)
        requires
            pieces > 0,
        ensures
            r.wf(),
            r.pieces() == pieces,
            r.counter() == 0,
            r.unit() == match unit {
                Some(u) => u,
                None => DEFAULT_THROTTLE_UNIT_MS,
            },
    {
        let unit = match unit {
            Some(u) => u,
            None => DEFAULT_THROTTLE_UNIT_MS,
        };
        Throttle { pieces, counter: 0, unit }
    }

    /// Hands out the next ticket: its number is the count of tickets that
    /// are out, modulo the pieces.
    pub fn acquire(&mut self) -> (r: Opportunity)
        requires
            old(self).wf(),
        ensures
            final(self).wf(),
            final(self).pieces() == old(self).pieces(),
            final(self).unit() == old(self).unit(),
            final(self).counter() == (if old(self).counter() == usize::MAX {
                0
            } else {
                old(self).counter() + 1
            }),
            r.ticket() == ticket_number(old(self).pieces(), old(self).counter()),
            r.unit() == old(self).unit(),
    {
        let n = self.counter % self.pieces;
        self.counter = self.counter.wrapping_add(1);
        Opportunity { n, u: self.unit }
    }

    /// Takes a ticket back when its holder is done with it.
    pub fn release(&mut self, ticket: Opportunity)
        requires
            old(self).wf(),
        ensures
            final(self).wf(),
            final(self).pieces() == old(self).pieces(),
            final(self).unit() == old(self).unit(),
            final(self).counter() == (if old(self).counter() == 0 {
                usize::MAX as nat
            } else {
                (old(self).counter() - 1) as nat
            }),
    {
        self.counter = self.counter.wrapping_sub(1);
    }
}

impl Opportunity {
    /// The ticket's number.
    pub closed spec fn ticket(&self) -> nat {
        self.n as nat
    }

    /// The pause that one number stands for, in milliseconds.
    pub closed spec fn unit(&self) -> nat {
        self.u as nat
    }

    /// How long the holder waits before it goes on, in milliseconds: the
    /// ticket's number times the unit.
    pub fn delay_ms(&self) -> (r: u128)
        ensures
            r == self.ticket() * self.unit(),
    {
        let n = self.n as u128;
        let u = self.u as u128;
        assert(n * u <= u128::MAX) by (nonlinear_arith)
            requires
                n <= 0xffff_ffff_ffff_ffff,
                u <= 0xffff_ffff_ffff_ffff,
        ;
        n * u
    }
}

/// The wait, in units, of the `k`-th ticket (counted from one) that a
/// throttle of `pieces` pieces hands out while none comes back.
pub open spec fn nth_wait(pieces: nat, k: nat) -> nat {
    ticket_number(pieces, (k - 1) as nat)
}

/// With `p` pieces, the `k`-th of up to `p` tickets that are out together
/// waits `k - 1` units, and the ticket after the `p`-th waits as the first
/// does.
pub proof fn lemma_throttle_pacing(p: nat, k: nat)
    requires
        1 <= k <= p,
    ensures
        nth_wait(p, k) == k - 1,
        nth_wait(p, p + 1) == nth_wait(p, 1),
        nth_wait(p, 1) == 0,
{
    vstd::arithmetic::div_mod::lemma_small_mod((k - 1) as nat, p);
    vstd::arithmetic::div_mod::lemma_mod_self_0(p as int);
    vstd::arithmetic::div_mod::lemma_small_mod(0, p);
}

/// The pattern that holds of a text that is one word character.
pub const WORD_PATTERN: &'static str = "^\\w$";

/// A letter or digit of ASCII, or the underscore.
pub open spec fn is_ascii_word_char(c: char) -> bool {
    ('a' <= c && c <= 'z') || ('A' <= c && c <= 'Z') || ('0' <= c && c <= '9') || c == '_'
}

/// A word character: one of ASCII, or a character beyond ASCII that the
/// pattern for word characters matches.
pub open spec fn is_word_char(c: char) -> bool {
    is_ascii_word_char(c) || (c as u32 >= 128 && filters(WORD_PATTERN@, seq![c]))
}

/// A character that may stand in a link after its scheme: a word character
/// or one of `. / : - $ & #`.
pub open spec fn is_url_char(c: char) -> bool {
    is_word_char(c) || c == '.' || c == '/' || c == ':' || c == '-' || c == '$' || c == '&' || c
        == '#'
}

/// Whether `http://` stands at position `i` of `s`.
pub open spec fn http_at(s: Seq<char>, i: int) -> bool {
    0 <= i && i + 7 <= s.len() && s[i] == 'h' && s[i + 1] == 't' && s[i + 2] == 't' && s[i + 3]
        == 'p' && s[i + 4] == ':' && s[i + 5] == '/' && s[i + 6] == '/'
}

/// Whether `https://` stands at position `i` of `s`.
pub open spec fn https_at(s: Seq<char>, i: int) -> bool {
    0 <= i && i + 8 <= s.len() && s[i] == 'h' && s[i + 1] == 't' && s[i + 2] == 't' && s[i + 3]
        == 'p' && s[i + 4] == 's' && s[i + 5] == ':' && s[i + 6] == '/' && s[i + 7] == '/'
}

/// The length of the scheme that stands at position `i` of `s`; zero where
/// none does.
pub open spec fn scheme_len(s: Seq<char>, i: int) -> int {
    if https_at(s, i) {
        8
    } else if http_at(s, i) {
        7
    } else {
        0
    }
}

/// The length of the longest run of link characters that starts at `from`.
pub open spec fn url_run(s: Seq<char>, from: int) -> nat
    decreases s.len() - from,
{
    if 0 <= from < s.len() && is_url_char(s[from]) {
        1 + url_run(s, from + 1)
    } else {
        0
    }
}

/// Whether a link starts at position `i` of `s`: a scheme, then at least
/// one link character.
pub open spec fn url_at(s: Seq<char>, i: int) -> bool {
    scheme_len(s, i) > 0 && url_run(s, i + scheme_len(s, i)) > 0
}

/// Where the link that starts at `i` ends: behind the longest run of link
/// characters that follows its scheme.
pub open spec fn url_end(s: Seq<char>, i: int) -> int {
    i + scheme_len(s, i) + url_run(s, i + scheme_len(s, i))
}

/// The bounds of the first link of `s` that starts at `i` or later.
pub open spec fn first_url_from(s: Seq<char>, i: int) -> Option<(int, int)>
    decreases s.len() - i,
{
    if i < 0 || i >= s.len() {
        None
    } else if url_at(s, i) {
        Some((i, url_end(s, i)))
    } else {
        first_url_from(s, i + 1)
    }
}

/// The bounds of the first link of `s`.
pub open spec fn first_url(s: Seq<char>) -> Option<(int, int)> {
    first_url_from(s, 0)
}

fn is_url_char_at(url: &str, v: &Vec<char>, j: usize) -> (r: bool)
    requires
        v@ == url@,
        j < v.len(),
    ensures
        r == is_url_char(v@[j as int]),
{
    let c = v[j];
    if (c as u32) < 128 {
        ('a' <= c && c <= 'z') || ('A' <= c && c <= 'Z') || ('0' <= c && c <= '9') || c == '_'
            || c == '.' || c == '/' || c == ':' || c == '-' || c == '$' || c == '&' || c == '#'
    } else {
        let one = url.substring_char(j, j + 1);
        proof {
            assert(one@ =~= seq![c]);
        }
        title_filtered(WORD_PATTERN, one)
    }
}

fn scheme_len_exec(v: &Vec<char>, i: usize) -> (r: usize)
    requires
        i < v.len(),
    ensures
        r == scheme_len(v@, i as int),
{
    let n = v.len() - i;
    if n >= 7 && v[i] == 'h' && v[i + 1] == 't' && v[i + 2] == 't' && v[i + 3] == 'p' {
        if v[i + 4] == ':' && v[i + 5] == '/' && v[i + 6] == '/' {
            7
        } else if n >= 8 && v[i + 4] == 's' && v[i + 5] == ':' && v[i + 6] == '/' && v[i + 7]
            == '/' {
            8
        } else {
            0
        }
    } else {
        0
    }
}

/// The first link in `url`: the first place where `http://` or `https://`
/// is followed by a link character, up to the end of the run of link
/// characters. `None` where there is no such place.
pub fn find_http_url(url: &str) -> (r: Option<&str>)
    ensures
        match first_url(url@) {
            Some((a, b)) => r matches Some(u) && u@ == url@.subrange(a, b),
            None => r is None,
        },
{
    let v = chars_of(url);
    let mut i: usize = 0;
    while i < v.len()
        invariant
            v@ == url@,
            i <= v.len(),
            first_url(url@) == first_url_from(url@, i as int),
        decreases v.len() - i,
    {
        let k = scheme_len_exec(&v, i);
        if k > 0 {
            let start = i + k;
            let mut j: usize = start;
            while j < v.len() && is_url_char_at(url, &v, j)
                invariant
                    v@ == url@,
                    start <= j <= v.len(),
                    url_run(v@, start as int) == (j - start) + url_run(v@, j as int),
                decreases v.len() - j,
            {
                j += 1;
            }
            if j > start {
                return Some(url.substring_char(i, j));
            }
        }
        i += 1;
    }
    None
}

/// What the run of link characters from `from` is made of, and where it
/// stops.
pub proof fn lemma_url_run(s: Seq<char>, from: int)
    requires
        0 <= from <= s.len(),
    ensures
        from + url_run(s, from) <= s.len(),
        forall|k: int| from <= k < from + url_run(s, from) ==> is_url_char(#[trigger] s[k]),
        from + url_run(s, from) == s.len() || !is_url_char(s[from + url_run(s, from)]),
    decreases s.len() - from,
{
    if from < s.len() && is_url_char(s[from]) {
        lemma_url_run(s, from + 1);
    }
}

/// The first link is a link, no link starts before it, it holds its scheme
/// and then link characters only, it ends where the text ends or the next
/// character is no link character, and it holds no bracket. Where there is
/// no first link, no link starts anywhere.
pub proof fn lemma_first_url(s: Seq<char>)
    ensures
        match first_url(s) {
            Some((a, b)) => {
                &&& 0 <= a < b <= s.len()
                &&& url_at(s, a)
                &&& b == url_end(s, a)
                &&& forall|j: int| 0 <= j < a ==> !url_at(s, j)
                &&& forall|k: int| a + scheme_len(s, a) <= k < b ==> is_url_char(#[trigger] s[k])
                &&& (b == s.len() || !is_url_char(s[b]))
                &&& forall|k: int|
                    a <= k < b ==> {
                        let c = #[trigger] s[k];
                        c != '[' && c != ']' && c != '(' && c != ')'
                    }
            },
            None => forall|j: int| 0 <= j < s.len() ==> !url_at(s, j),
        },
{
    lemma_first_url_from(s, 0);
    if let Some((a, b)) = first_url(s) {
        lemma_url_run(s, a + scheme_len(s, a));
    }
}

/// The first link at or after `i` is a link, and no link starts between
/// `i` and it.
pub proof fn lemma_first_url_from(s: Seq<char>, i: int)
    requires
        0 <= i,
    ensures
        match first_url_from(s, i) {
            Some((a, b)) => {
                &&& i <= a < b <= s.len()
                &&& url_at(s, a)
                &&& b == url_end(s, a)
                &&& forall|j: int| i <= j < a ==> !url_at(s, j)
            },
            None => forall|j: int| i <= j < s.len() ==> !url_at(s, j),
        },
    decreases s.len() - i,
{
    if i < s.len() {
        if url_at(s, i) {
            lemma_url_run(s, i + scheme_len(s, i));
        } else {
            lemma_first_url_from(s, i + 1);
        }
    }
}

/// The hash that `std`'s default hasher gives to the text `k`: the hash of
/// its UTF-8 bytes followed by the byte `0xff`.
pub open spec fn str_hash(k: Seq<char>) -> u64 {
    DefaultHasher::spec_finish(seq![vstd::utf8::encode_utf8(k), seq![0xffu8]])
}

/// The fingerprint of a text: the decimal numeral of its hash.
pub open spec fn fingerprint(k: Seq<char>) -> Seq<char> {
    decimal_digits(str_hash(k) as nat)
}

/// The fingerprint of `k`. Equal texts have equal fingerprints.
pub fn hash(k: &str) -> (r: String)
    ensures
        r@ == fingerprint(k@),
{
    let mut hasher = DefaultHasher::new();
    hasher.write(k.as_bytes());
    let mut end: Vec<u8> = Vec::new();
    end.push(0xffu8);
    proof {
        assert(end@ =~= seq![0xffu8]);
    }
    hasher.write(end.as_slice());
    let n = hasher.finish();
    proof {
        assert(hasher@ =~= seq![vstd::utf8::encode_utf8(k@), seq![0xffu8]]);
    }
    decimal(n)
}

} // verus!
