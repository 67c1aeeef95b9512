//! Character-level text utilities shared by the markup parser, the DOM's
//! attribute normalization and the inline-style resolver.
//!
//! Text is carried as `Vec<char>` so that every transformation is plain,
//! verifiable code; each executable function mirrors a spec function exactly.

use vstd::prelude::*;

verus! {

// ----------------------------------------------------------------------------
// character classes (ASCII)
// ----------------------------------------------------------------------------
pub open spec fn is_space_char(c: char) -> bool {
    c == ' ' || c == '\t' || c == '\n' || c == '\r'
}

pub open spec fn is_name_char(c: char) -> bool {
    (48 <= c as u32 && c as u32 <= 57) || (65 <= c as u32 && c as u32 <= 90) || (97 <= c as u32
        && c as u32 <= 122)
}

pub open spec fn is_digit_char(c: char) -> bool {
    48 <= c as u32 && c as u32 <= 57
}

pub open spec fn digit_val(c: char) -> int {
    c as u32 - 48
}

pub fn space_char(c: char) -> (r: bool)
    ensures
        r == is_space_char(c),
{
    c == ' ' || c == '\t' || c == '\n' || c == '\r'
}

pub fn name_char(c: char) -> (r: bool)
    ensures
        r == is_name_char(c),
{
    let u = c as u32;
    (48 <= u && u <= 57) || (65 <= u && u <= 90) || (97 <= u && u <= 122)
}

pub fn digit_char(c: char) -> (r: bool)
    ensures
        r == is_digit_char(c),
{
    let u = c as u32;
    48 <= u && u <= 57
}

// ----------------------------------------------------------------------------
// ASCII lower-casing
// ----------------------------------------------------------------------------
pub open spec fn lower_char_spec(c: char) -> char {
    if 65 <= c as u32 && c as u32 <= 90 {
        ((c as u32 + 32) as u8) as char
    } else {
        c
    }
}

pub open spec fn lower_spec(s: Seq<char>) -> Seq<char> {
    s.map_values(|c: char| lower_char_spec(c))
}

pub fn lower_char(c: char) -> (r: char)
    ensures
        r == lower_char_spec(c),
{
    let u = c as u32;
    if 65 <= u && u <= 90 {
        ((u + 32) as u8) as char
    } else {
        c
    }
}

pub fn lower_chars(v: &Vec<char>) -> (r: Vec<char>)
    ensures
        r@ == lower_spec(v@),
{
    let mut r: Vec<char> = Vec::new();
    let mut i: usize = 0;
    while i < v.len()
        invariant
            0 <= i <= v@.len(),
            r@ == lower_spec(v@.subrange(0, i as int)),
        decreases v@.len() - i,
    {
        r.push(lower_char(v[i]));
        proof {
            assert(r@ =~= lower_spec(v@.subrange(0, i + 1)));
        }
        i = i + 1;
    }
    proof {
        assert(v@.subrange(0, v@.len() as int) =~= v@);
    }
    r
}

// ----------------------------------------------------------------------------
// trimming
// ----------------------------------------------------------------------------
pub open spec fn trim_start_spec(s: Seq<char>) -> Seq<char>
    decreases s.len(),
{
    if s.len() > 0 && is_space_char(s[0]) {
        trim_start_spec(s.drop_first())
    } else {
        s
    }
}

pub open spec fn trim_end_spec(s: Seq<char>) -> Seq<char>
    decreases s.len(),
{
    if s.len() > 0 && is_space_char(s.last()) {
        trim_end_spec(s.drop_last())
    } else {
        s
    }
}

pub open spec fn trim_spec(s: Seq<char>) -> Seq<char> {
    trim_end_spec(trim_start_spec(s))
}

proof fn lemma_trim_start_at(s: Seq<char>, a: int)
    requires
        0 <= a <= s.len(),
        forall|j: int| 0 <= j < a ==> is_space_char(s[j]),
        a < s.len() ==> !is_space_char(s[a]),
    ensures
        trim_start_spec(s) == s.skip(a),
    decreases a,
{
    if a == 0 {
        assert(s.skip(0) =~= s);
    } else {
        assert(is_space_char(s[0]));
        lemma_trim_start_at(s.drop_first(), a - 1);
        assert(s.drop_first().skip(a - 1) =~= s.skip(a));
    }
}

proof fn lemma_trim_end_at(s: Seq<char>, b: int)
    requires
        0 <= b <= s.len(),
        forall|j: int| b <= j < s.len() ==> is_space_char(s[j]),
        b > 0 ==> !is_space_char(s[b - 1]),
    ensures
        trim_end_spec(s) == s.take(b),
    decreases s.len(),
{
    if b == s.len() {
        if s.len() > 0 {
            assert(!is_space_char(s.last()));
        }
        assert(s.take(b) =~= s);
    } else {
        assert(is_space_char(s.last()));
        lemma_trim_end_at(s.drop_last(), b);
        assert(s.drop_last().take(b) =~= s.take(b));
    }
}

/// Copy of `v[a..b]`.
pub fn subvec(v: &Vec<char>, a: usize, b: usize) -> (r: Vec<char>)
    requires
        a <= b <= v@.len(),
    ensures
        r@ == v@.subrange(a as int, b as int),
{
    let mut r: Vec<char> = Vec::new();
    let mut i: usize = a;
    while i < b
        invariant
            a <= i <= b <= v@.len(),
            r@ == v@.subrange(a as int, i as int),
        decreases b - i,
    {
        r.push(v[i]);
        proof {
            assert(r@ =~= v@.subrange(a as int, i + 1));
        }
        i = i + 1;
    }
    r
}

pub fn clone_chars(v: &Vec<char>) -> (r: Vec<char>)
    ensures
        r@ == v@,
{
    let r = subvec(v, 0, v.len());
    proof {
        assert(v@.subrange(0, v@.len() as int) =~= v@);
    }
    r
}

/// Leading and trailing ASCII whitespace removed.
pub fn trim_chars(v: &Vec<char>) -> (r: Vec<char>)
    ensures
        r@ == trim_spec(v@),
{
    let n = v.len();
    let mut a: usize = 0;
    while a < n && space_char(v[a])
        invariant
            0 <= a <= n,
            n == v@.len(),
            forall|j: int| 0 <= j < a ==> is_space_char(v@[j]),
        decreases n - a,
    {
        a = a + 1;
    }
    let mut b: usize = n;
    while b > a && space_char(v[b - 1])
        invariant
            a <= b <= n,
            n == v@.len(),
            forall|j: int| b <= j < n ==> is_space_char(v@[j]),
        decreases b,
    {
        b = b - 1;
    }
    let r = subvec(v, a, b);
    proof {
        lemma_trim_start_at(v@, a as int);
        let s = v@.skip(a as int);
        assert(forall|j: int| b - a <= j < s.len() ==> is_space_char(#[trigger] s[j]));
        lemma_trim_end_at(s, b - a);
        assert(v@.subrange(a as int, b as int) =~= s.take(b - a));
    }
    r
}

// ----------------------------------------------------------------------------
// comparison against string literals
// ----------------------------------------------------------------------------
pub fn chars_eq(a: &Vec<char>, s: &str) -> (r: bool)
    ensures
        r == (a@ == s@),
{
    let n = s.unicode_len();
    if a.len() != n {
        proof {
            assert(a@ != s@);
        }
        return false;
    }
    let mut i: usize = 0;
    while i < n
        invariant
            0 <= i <= n,
            n == s@.len(),
            n == a@.len(),
            forall|j: int| 0 <= j < i ==> a@[j] == s@[j],
        decreases n - i,
    {
        if a[i] != s.get_char(i) {
            proof {
                assert(a@ != s@);
            }
            return false;
        }
        i = i + 1;
    }
    proof {
        assert(a@ =~= s@);
    }
    true
}

pub fn chars_eq_chars(a: &Vec<char>, b: &Vec<char>) -> (r: bool)
    ensures
        r == (a@ == b@),
{
    if a.len() != b.len() {
        proof {
            assert(a@ != b@);
        }
        return false;
    }
    let mut i: usize = 0;
    while i < a.len()
        invariant
            0 <= i <= a@.len(),
            a@.len() == b@.len(),
            forall|j: int| 0 <= j < i ==> a@[j] == b@[j],
        decreases a@.len() - i,
    {
        if a[i] != b[i] {
            proof {
                assert(a@ != b@);
            }
            return false;
        }
        i = i + 1;
    }
    proof {
        assert(a@ =~= b@);
    }
    true
}

pub fn str_to_chars(s: &str) -> (r: Vec<char>)
    ensures
        r@ == s@,
{
    let n = s.unicode_len();
    let mut r: Vec<char> = Vec::new();
    let mut i: usize = 0;
    while i < n
        invariant
            0 <= i <= n,
            n == s@.len(),
            r@ == s@.subrange(0, i as int),
        decreases n - i,
    {
        r.push(s.get_char(i));
        proof {
            assert(r@ =~= s@.subrange(0, i + 1));
        }
        i = i + 1;
    }
    proof {
        assert(r@ =~= s@);
    }
    r
}

// ----------------------------------------------------------------------------
// searching and splitting
// ----------------------------------------------------------------------------
pub open spec fn find_spec(s: Seq<char>, t: char) -> Option<int>
    decreases s.len(),
{
    if s.len() == 0 {
        None
    } else if s[0] == t {
        Some(0int)
    } else {
        match find_spec(s.drop_first(), t) {
            None => None,
            Some(i) => Some(i + 1),
        }
    }
}

pub proof fn lemma_find_props(s: Seq<char>, t: char)
    ensures
        match find_spec(s, t) {
            None => forall|j: int| 0 <= j < s.len() ==> s[j] != t,
            Some(i) => 0 <= i < s.len() && s[i] == t && forall|j: int| 0 <= j < i ==> s[j] != t,
        },
    decreases s.len(),
{
    if s.len() == 0 {
    } else if s[0] == t {
        assert(find_spec(s, t) == Some(0int));
    } else {
        lemma_find_props(s.drop_first(), t);
        assert(forall|j: int| 1 <= j < s.len() ==> s[j] == #[trigger] s.drop_first()[j - 1]);
        match find_spec(s.drop_first(), t) {
            None => {
                assert forall|j: int| 0 <= j < s.len() implies s[j] != t by {
                    if j >= 1 {
                        assert(s.drop_first()[j - 1] != t);
                    }
                }
            },
            Some(i) => {
                assert(find_spec(s, t) == Some(i + 1));
                assert(s[i + 1] == s.drop_first()[i]);
                assert forall|j: int| 0 <= j < i + 1 implies s[j] != t by {
                    if j >= 1 {
                        assert(s.drop_first()[j - 1] != t);
                    }
                }
            },
        }
    }
}

pub fn find_from(v: &Vec<char>, from: usize, t: char) -> (r: Option<usize>)
    requires
        from <= v@.len(),
    ensures
        match find_spec(v@.skip(from as int), t) {
            None => r.is_none(),
            Some(i) => r == Some((from + i) as usize),
        },
    decreases v@.len() - from,
{
    if from >= v.len() {
        None
    } else if v[from] == t {
        proof {
            assert(v@.skip(from as int)[0] == v@[from as int]);
        }
        Some(from)
    } else {
        proof {
            assert(v@.skip(from as int).drop_first() =~= v@.skip(from + 1));
        }
        find_from(v, from + 1, t)
    }
}

pub open spec fn split_once_spec(s: Seq<char>, t: char) -> Option<(Seq<char>, Seq<char>)> {
    match find_spec(s, t) {
        None => None,
        Some(i) => Some((s.take(i), s.skip(i + 1))),
    }
}

pub fn split_once_chars(v: &Vec<char>, t: char) -> (r: Option<(Vec<char>, Vec<char>)>)
    ensures
        match split_once_spec(v@, t) {
            None => r.is_none(),
            Some(p) => r matches Some(q) && q.0@ == p.0 && q.1@ == p.1,
        },
{
    proof {
        assert(v@.skip(0) =~= v@);
        lemma_find_props(v@, t);
    }
    match find_from(v, 0, t) {
        None => None,
        Some(i) => {
            let n = v.len();
            proof {
                assert(i < v@.len());
            }
            let head = subvec(v, 0, i);
            let tail = subvec(v, i + 1, n);
            proof {
                assert(v@.subrange(0, i as int) =~= v@.take(i as int));
                assert(v@.subrange(i + 1, v@.len() as int) =~= v@.skip(i + 1));
            }
            Some((head, tail))
        },
    }
}

pub open spec fn split_spec(s: Seq<char>, t: char) -> Seq<Seq<char>>
    decreases s.len(),
{
    if s.len() == 0 {
        seq![s]
    } else if s[0] == t {
        seq![Seq::<char>::empty()] + split_spec(s.drop_first(), t)
    } else {
        let rest = split_spec(s.drop_first(), t);
        seq![seq![s[0]] + rest[0]] + rest.drop_first()
    }
}

pub proof fn lemma_split_len(s: Seq<char>, t: char)
    ensures
        split_spec(s, t).len() >= 1,
    decreases s.len(),
{
    if s.len() > 0 {
        lemma_split_len(s.drop_first(), t);
    }
}

fn split_from(v: &Vec<char>, from: usize, t: char) -> (r: Vec<Vec<char>>)
    requires
        from <= v@.len(),
    ensures
        r.deep_view() == split_spec(v@.skip(from as int), t),
    decreases v@.len() - from,
{
    let ghost s = v@.skip(from as int);
    if from >= v.len() {
        let mut r: Vec<Vec<char>> = Vec::new();
        r.push(Vec::new());
        proof {
            assert(s.len() == 0);
            assert(r.deep_view() =~~= split_spec(s, t));
        }
        r
    } else if v[from] == t {
        proof {
            assert(s[0] == v@[from as int]);
            assert(s.drop_first() =~= v@.skip(from + 1));
        }
        let mut r = split_from(v, from + 1, t);
        r.insert(0, Vec::new());
        proof {
            assert(r.deep_view() =~~= split_spec(s, t));
        }
        r
    } else {
        proof {
            assert(s[0] == v@[from as int]);
            assert(s.drop_first() =~= v@.skip(from + 1));
            lemma_split_len(v@.skip(from + 1), t);
        }
        let mut r = split_from(v, from + 1, t);
        let mut head = r.remove(0);
        head.insert(0, v[from]);
        r.insert(0, head);
        proof {
            assert(r.deep_view() =~~= split_spec(s, t));
        }
        r
    }
}

/// The segments of `v` between occurrences of `t` (as `str::split` yields them).
pub fn split_chars(v: &Vec<char>, t: char) -> (r: Vec<Vec<char>>)
    ensures
        r.deep_view() == split_spec(v@, t),
{
    proof {
        assert(v@.skip(0) =~= v@);
    }
    split_from(v, 0, t)
}

// ----------------------------------------------------------------------------
// whitespace tokenization
// ----------------------------------------------------------------------------
pub open spec fn tokens_spec(s: Seq<char>) -> Seq<Seq<char>>
    decreases s.len(),
{
    if s.len() == 0 {
        Seq::empty()
    } else if is_space_char(s[0]) {
        tokens_spec(s.drop_first())
    } else {
        let rest = tokens_spec(s.drop_first());
        if s.len() > 1 && !is_space_char(s[1]) {
            seq![seq![s[0]] + rest[0]] + rest.drop_first()
        } else {
            seq![seq![s[0]]] + rest
        }
    }
}

proof fn lemma_tokens_len(s: Seq<char>)
    requires
        s.len() > 0,
        !is_space_char(s[0]),
    ensures
        tokens_spec(s).len() >= 1,
{
}

fn tokens_from(v: &Vec<char>, from: usize) -> (r: Vec<Vec<char>>)
    requires
        from <= v@.len(),
    ensures
        r.deep_view() == tokens_spec(v@.skip(from as int)),
    decreases v@.len() - from,
{
    let ghost s = v@.skip(from as int);
    if from >= v.len() {
        let r: Vec<Vec<char>> = Vec::new();
        proof {
            assert(r.deep_view() =~~= tokens_spec(s));
        }
        r
    } else {
        proof {
            assert(s[0] == v@[from as int]);
            assert(s.drop_first() =~= v@.skip(from + 1));
        }
        if space_char(v[from]) {
            tokens_from(v, from + 1)
        } else {
            let mut r = tokens_from(v, from + 1);
            if from + 1 < v.len() && !space_char(v[from + 1]) {
                proof {
                    assert(s.len() > 1 && !is_space_char(s[1]));
                    assert(v@.skip(from + 1)[0] == v@[from + 1]);
                    lemma_tokens_len(v@.skip(from + 1));
                }
                let mut head = r.remove(0);
                head.insert(0, v[from]);
                r.insert(0, head);
                proof {
                    assert(r.deep_view() =~~= tokens_spec(s));
                }
                r
            } else {
                let mut head: Vec<char> = Vec::new();
                head.push(v[from]);
                r.insert(0, head);
                proof {
                    assert(r.deep_view() =~~= tokens_spec(s));
                }
                r
            }
        }
    }
}

/// The whitespace-separated tokens of `v` (as `str::split_whitespace` yields them).
pub fn tokens_chars(v: &Vec<char>) -> (r: Vec<Vec<char>>)
    ensures
        r.deep_view() == tokens_spec(v@),
{
    proof {
        assert(v@.skip(0) =~= v@);
    }
    tokens_from(v, 0)
}

// ----------------------------------------------------------------------------
// decimal numbers
// ----------------------------------------------------------------------------
pub open spec fn all_digits(s: Seq<char>) -> bool {
    forall|i: int| 0 <= i < s.len() ==> is_digit_char(s[i])
}

pub open spec fn dec_value(s: Seq<char>) -> int
    decreases s.len(),
{
    if s.len() == 0 {
        0
    } else {
        dec_value(s.drop_last()) * 10 + digit_val(s.last())
    }
}

proof fn lemma_dec_nonneg(s: Seq<char>)
    requires
        all_digits(s),
    ensures
        dec_value(s) >= 0,
    decreases s.len(),
{
    if s.len() > 0 {
        assert(all_digits(s.drop_last()));
        lemma_dec_nonneg(s.drop_last());
    }
}

proof fn lemma_dec_take_step(s: Seq<char>, i: int)
    requires
        0 <= i < s.len(),
    ensures
        dec_value(s.take(i + 1)) == dec_value(s.take(i)) * 10 + digit_val(s[i]),
{
    assert(s.take(i + 1).drop_last() =~= s.take(i));
    assert(s.take(i + 1).last() == s[i]);
}

proof fn lemma_dec_mono(s: Seq<char>, i: int)
    requires
        all_digits(s),
        0 <= i <= s.len(),
    ensures
        dec_value(s) >= dec_value(s.take(i)),
    decreases s.len() - i,
{
    if i == s.len() {
        assert(s.take(i) =~= s);
    } else {
        lemma_dec_take_step(s, i);
        assert(all_digits(s.take(i)));
        lemma_dec_nonneg(s.take(i));
        lemma_dec_mono(s, i + 1);
    }
}

/// Parse an unsigned decimal integer; `None` on an empty string, a non-digit,
/// or a value that does not fit in `u64`.
pub fn parse_dec(v: &Vec<char>) -> (r: Option<u64>)
    ensures
        r.is_some() <==> (v@.len() > 0 && all_digits(v@) && dec_value(v@) <= u64::MAX),
        r matches Some(n) ==> n == dec_value(v@),
{
    if v.len() == 0 {
        return None;
    }
    let mut acc: u64 = 0;
    let mut i: usize = 0;
    while i < v.len()
        invariant
            0 <= i <= v@.len(),
            all_digits(v@.take(i as int)),
            acc == dec_value(v@.take(i as int)),
        decreases v@.len() - i,
    {
        let c = v[i];
        if !digit_char(c) {
            proof {
                assert(!all_digits(v@));
            }
            return None;
        }
        let d: u64 = (c as u32 - 48) as u64;
        proof {
            assert(all_digits(v@.take(i + 1)));
            lemma_dec_take_step(v@, i as int);
        }
        let m = acc.checked_mul(10);
        if m.is_none() {
            proof {
                if all_digits(v@) {
                    assert(digit_val(v@[i as int]) >= 0);
                    lemma_dec_mono(v@, i + 1);
                }
            }
            return None;
        }
        let a = m.unwrap().checked_add(d);
        if a.is_none() {
            proof {
                if all_digits(v@) {
                    lemma_dec_mono(v@, i + 1);
                }
            }
            return None;
        }
        acc = a.unwrap();
        i = i + 1;
    }
    proof {
        assert(v@.take(v@.len() as int) =~= v@);
    }
    Some(acc)
}

// ----------------------------------------------------------------------------
// "px" suffix stripping (repeated, as `str::trim_end_matches` does)
// ----------------------------------------------------------------------------
pub open spec fn strip_px_spec(s: Seq<char>) -> Seq<char>
    decreases s.len(),
{
    if s.len() >= 2 && s[s.len() - 2] == 'p' && s[s.len() - 1] == 'x' {
        strip_px_spec(s.take(s.len() - 2))
    } else {
        s
    }
}

pub fn strip_px(v: &Vec<char>) -> (r: Vec<char>)
    ensures
        r@ == strip_px_spec(v@),
{
    let mut r = clone_chars(v);
    while r.len() >= 2 && r[r.len() - 2] == 'p' && r[r.len() - 1] == 'x'
        invariant
            strip_px_spec(r@) == strip_px_spec(v@),
        decreases r@.len(),
    {
        let ghost before = r@;
        r.pop();
        r.pop();
        proof {
            assert(r@ =~= before.take(before.len() - 2));
        }
    }
    r
}

// ----------------------------------------------------------------------------
// substring search
// ----------------------------------------------------------------------------
pub open spec fn contains_at(hay: Seq<char>, needle: Seq<char>, i: int) -> bool {
    0 <= i && i + needle.len() <= hay.len() && hay.subrange(i, i + needle.len()) == needle
}

pub open spec fn contains_sub(hay: Seq<char>, needle: Seq<char>) -> bool {
    exists|i: int| contains_at(hay, needle, i)
}

fn match_at(hay: &Vec<char>, needle: &str, i: usize) -> (r: bool)
    requires
        i + needle@.len() <= hay@.len(),
    ensures
        r == contains_at(hay@, needle@, i as int),
{
    let m = needle.unicode_len();
    let hn = hay.len();
    let mut j: usize = 0;
    while j < m
        invariant
            0 <= j <= m,
            m == needle@.len(),
            hn == hay@.len(),
            i + m <= hn,
            forall|k: int| 0 <= k < j ==> hay@[i + k] == needle@[k],
        decreases m - j,
    {
        proof {
            assert(i + j < hay@.len());
        }
        if hay[i + j] != needle.get_char(j) {
            proof {
                assert(hay@.subrange(i as int, i + needle@.len())[j as int] != needle@[j as int]);
            }
            return false;
        }
        j = j + 1;
    }
    proof {
        assert(hay@.subrange(i as int, i + needle@.len()) =~= needle@);
    }
    true
}

/// Whether `needle` occurs anywhere in `hay` (as `str::contains`).
pub fn contains_chars(hay: &Vec<char>, needle: &str) -> (r: bool)
    ensures
        r == contains_sub(hay@, needle@),
{
    let m = needle.unicode_len();
    if m > hay.len() {
        proof {
            assert(forall|i: int| !contains_at(hay@, needle@, i));
        }
        return false;
    }
    if m == 0 {
        proof {
            assert(hay@.subrange(0, 0) =~= needle@);
            assert(contains_at(hay@, needle@, 0));
        }
        return true;
    }
    let mut i: usize = 0;
    while i <= hay.len() - m
        invariant
            0 <= i <= hay@.len() - m + 1,
            m == needle@.len(),
            1 <= m <= hay@.len(),
            forall|k: int| 0 <= k < i ==> !contains_at(hay@, needle@, k),
        decreases hay@.len() - i,
    {
        if match_at(hay, needle, i) {
            return true;
        }
        i = i + 1;
    }
    proof {
        assert(forall|k: int| k >= i ==> !contains_at(hay@, needle@, k));
    }
    false
}

} // verus!

verus! {

/// Append the characters of `s`.
pub fn push_str_chars(out: &mut Vec<char>, s: &str)
    ensures
        final(out)@ == old(out)@ + s@,
{
    let ghost base = out@;
    let n = s.unicode_len();
    let mut i: usize = 0;
    while i < n
        invariant
            0 <= i <= n,
            n == s@.len(),
            out@ == base + s@.subrange(0, i as int),
        decreases n - i,
    {
        out.push(s.get_char(i));
        proof {
            assert(out@ =~= base + s@.subrange(0, i + 1));
        }
        i = i + 1;
    }
    proof {
        assert(out@ =~= base + s@);
    }
}

/// Append the characters of `v`.
pub fn push_vec_chars(out: &mut Vec<char>, v: &Vec<char>)
    ensures
        final(out)@ == old(out)@ + v@,
{
    let ghost base = out@;
    let mut i: usize = 0;
    while i < v.len()
        invariant
            0 <= i <= v@.len(),
            out@ == base + v@.subrange(0, i as int),
        decreases v@.len() - i,
    {
        out.push(v[i]);
        proof {
            assert(out@ =~= base + v@.subrange(0, i + 1));
        }
        i = i + 1;
    }
    proof {
        assert(out@ =~= base + v@);
    }
}

} // verus!
