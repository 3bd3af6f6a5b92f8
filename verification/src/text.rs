//! Character-level text utilities shared by the parsers: the model of a text
//! is its sequence of characters, and each operation is stated over it.
use vstd::prelude::*;

verus! {

// ---------------------------------------------------------------------------
// Specifications
// ---------------------------------------------------------------------------

/// Number of leading characters of `s` that satisfy `p`.
pub open spec fn lead(s: Seq<char>, p: spec_fn(char) -> bool) -> nat
    decreases s.len(),
{
    if s.len() > 0 && p(s[0]) {
        1 + lead(s.drop_first(), p)
    } else {
        0
    }
}

/// Number of trailing characters of `s` that satisfy `p`.
pub open spec fn trail(s: Seq<char>, p: spec_fn(char) -> bool) -> nat
    decreases s.len(),
{
    if s.len() > 0 && p(s.last()) {
        1 + trail(s.drop_last(), p)
    } else {
        0
    }
}

pub open spec fn not_char(c: char) -> spec_fn(char) -> bool {
    |x: char| x != c
}

pub open spec fn is_char(c: char) -> spec_fn(char) -> bool {
    |x: char| x == c
}

/// Unicode `White_Space`, as `char::is_whitespace` decides it.
pub open spec fn is_ws(c: char) -> bool {
    let u = c as u32;
    (9 <= u <= 13) || u == 32 || u == 0x85 || u == 0xa0 || u == 0x1680 || (0x2000 <= u
        <= 0x200a) || u == 0x2028 || u == 0x2029 || u == 0x202f || u == 0x205f || u == 0x3000
}

pub open spec fn ws() -> spec_fn(char) -> bool {
    |c: char| is_ws(c)
}

pub open spec fn non_ws() -> spec_fn(char) -> bool {
    |c: char| !is_ws(c)
}

/// `s` with surrounding white space removed (`str::trim`).
pub open spec fn trim(s: Seq<char>) -> Seq<char> {
    let t = s.skip(lead(s, ws()) as int);
    t.take(t.len() - trail(t, ws()))
}

/// `s` without a final carriage return.
pub open spec fn strip_cr(l: Seq<char>) -> Seq<char> {
    if l.len() > 0 && l.last() == '\r' {
        l.drop_last()
    } else {
        l
    }
}

/// The lines of `s` as `str::lines` yields them: split at `\n`, a `\r` just
/// before a `\n` removed, and no empty line after a final `\n`.
pub open spec fn lines(s: Seq<char>) -> Seq<Seq<char>>
    decreases s.len(),
{
    if s.len() == 0 {
        seq![]
    } else {
        let k = lead(s, not_char('\n'));
        if k >= s.len() {
            seq![s]
        } else {
            seq![strip_cr(s.take(k as int))] + lines(s.skip(k as int + 1))
        }
    }
}

/// The character sequences of a sequence of strings.
pub open spec fn views(v: Seq<String>) -> Seq<Seq<char>> {
    v.map_values(|x: String| x@)
}

pub open spec fn has_prefix(s: Seq<char>, p: Seq<char>) -> bool {
    p.len() <= s.len() && s.take(p.len() as int) == p
}

pub open spec fn has_suffix(s: Seq<char>, p: Seq<char>) -> bool {
    p.len() <= s.len() && s.skip(s.len() - p.len()) == p
}

/// `s` with the prefix `p` removed, where it has it.
pub open spec fn strip_prefix(s: Seq<char>, p: Seq<char>) -> Option<Seq<char>> {
    if has_prefix(s, p) {
        Some(s.skip(p.len() as int))
    } else {
        None
    }
}

pub open spec fn matches_at(s: Seq<char>, p: Seq<char>, i: int) -> bool {
    0 <= i && i + p.len() <= s.len() && s.subrange(i, i + p.len()) == p
}

/// Index of the leftmost occurrence of `p` in `s`, or -1.
pub open spec fn find(s: Seq<char>, p: Seq<char>) -> int
    decreases s.len(),
{
    if s.len() < p.len() {
        -1
    } else if matches_at(s, p, 0) {
        0
    } else if s.len() == 0 {
        -1
    } else {
        let r = find(s.drop_first(), p);
        if r < 0 {
            -1
        } else {
            r + 1
        }
    }
}

pub open spec fn contains(s: Seq<char>, p: Seq<char>) -> bool {
    find(s, p) >= 0
}

/// The pieces of `s` between the non-overlapping leftmost occurrences of the
/// non-empty pattern `p` (`str::split`).
pub open spec fn split(s: Seq<char>, p: Seq<char>) -> Seq<Seq<char>>
    recommends
        p.len() > 0,
    decreases s.len(),
{
    let k = find(s, p);
    if k < 0 || p.len() == 0 {
        seq![s]
    } else {
        proof {
            lemma_find_bounds(s, p);
        }
        seq![s.take(k)] + split(s.skip(k + p.len()), p)
    }
}

/// `str::split_once` with a non-empty pattern.
pub open spec fn split_once(s: Seq<char>, p: Seq<char>) -> Option<(Seq<char>, Seq<char>)> {
    let k = find(s, p);
    if k < 0 {
        None
    } else {
        Some((s.take(k), s.skip(k + p.len())))
    }
}

/// The maximal runs of non-white-space characters (`str::split_whitespace`).
pub open spec fn words(s: Seq<char>) -> Seq<Seq<char>>
    decreases s.len(),
{
    let t = s.skip(lead(s, ws()) as int);
    if t.len() == 0 || lead(s, ws()) > s.len() {
        seq![]
    } else {
        let k = lead(t, non_ws());
        if k == 0 {
            seq![]
        } else {
            proof {
                lemma_lead_le(t, non_ws());
            }
            seq![t.take(k as int)] + words(t.skip(k as int))
        }
    }
}


/// `s` without its leading characters equal to `c` (`str::trim_start_matches`).
pub open spec fn trim_start_char(s: Seq<char>, c: char) -> Seq<char> {
    s.skip(lead(s, is_char(c)) as int)
}


/// `s` without its trailing characters equal to `c` (`str::trim_end_matches`).
pub open spec fn trim_end_char(s: Seq<char>, c: char) -> Seq<char> {
    s.take(s.len() - trail(s, is_char(c)))
}

pub open spec fn is_digit(c: char) -> bool {
    '0' <= c && c <= '9'
}

pub open spec fn digit_value(c: char) -> nat {
    (c as nat - '0' as nat) as nat
}

/// The number that the decimal digits `s` denote.
pub open spec fn digits_value(s: Seq<char>) -> nat
    decreases s.len(),
{
    if s.len() == 0 {
        0
    } else {
        digits_value(s.drop_last()) * 10 + digit_value(s.last())
    }
}

pub open spec fn all_digits(s: Seq<char>) -> bool {
    forall|i: int| 0 <= i < s.len() ==> is_digit(#[trigger] s[i])
}

/// An unsigned integer as `str::parse` reads it for a type whose largest value
/// is `max`: an optional `+`, then at least one decimal digit, no overflow.
pub open spec fn parse_nat(s: Seq<char>, max: nat) -> Option<nat> {
    let d = if s.len() > 1 && s[0] == '+' {
        s.drop_first()
    } else {
        s
    };
    if d.len() == 0 || !all_digits(d) || digits_value(d) > max {
        None
    } else {
        Some(digits_value(d))
    }
}


/// `c` with an ASCII capital letter made small (`char::to_ascii_lowercase`).
pub open spec fn ascii_lower(c: char) -> char {
    if 'A' <= c && c <= 'Z' {
        ((c as int) + 32) as char
    } else {
        c
    }
}

/// `s` with every ASCII capital letter made small (`str::to_ascii_lowercase`).
pub open spec fn lower(s: Seq<char>) -> Seq<char> {
    s.map_values(|c: char| ascii_lower(c))
}

pub open spec fn digit_char(d: nat) -> char {
    if d == 0 { '0' } else if d == 1 { '1' } else if d == 2 { '2' } else if d == 3 { '3' }
    else if d == 4 { '4' } else if d == 5 { '5' } else if d == 6 { '6' } else if d == 7 { '7' }
    else if d == 8 { '8' } else { '9' }
}

/// The decimal notation of `n` (`usize::to_string`).
pub open spec fn decimal(n: nat) -> Seq<char>
    decreases n,
{
    if n < 10 {
        seq![digit_char(n)]
    } else {
        decimal(n / 10).push(digit_char(n % 10))
    }
}


/// Index of the last `c` in `s`, or -1.
pub open spec fn last_index(s: Seq<char>, c: char) -> int {
    let t = trail(s, not_char(c));
    if t >= s.len() {
        -1
    } else {
        s.len() - t - 1
    }
}

/// `str::rsplit_once` on one character.
pub open spec fn rsplit_once(s: Seq<char>, c: char) -> Option<(Seq<char>, Seq<char>)> {
    let k = last_index(s, c);
    if k < 0 {
        None
    } else {
        Some((s.take(k), s.skip(k + 1)))
    }
}

/// The first piece of `s` before the literal `p` (the first item of `str::split`).
pub open spec fn first_piece(s: Seq<char>, p: Seq<char>) -> Seq<char> {
    let k = find(s, p);
    if k < 0 {
        s
    } else {
        s.take(k)
    }
}

// ---------------------------------------------------------------------------
// Lemmas
// ---------------------------------------------------------------------------

pub proof fn lemma_lead_le(s: Seq<char>, p: spec_fn(char) -> bool)
    ensures
        lead(s, p) <= s.len(),
        forall|i: int| 0 <= i < lead(s, p) ==> p(#[trigger] s[i]),
        lead(s, p) < s.len() ==> !p(s[lead(s, p) as int]),
    decreases s.len(),
{
    if s.len() > 0 && p(s[0]) {
        lemma_lead_le(s.drop_first(), p);
        assert forall|i: int| 0 <= i < lead(s, p) implies p(#[trigger] s[i]) by {
            if i > 0 {
                assert(s[i] == s.drop_first()[i - 1]);
            }
        }
    }
}

/// `lead` is the length of the longest prefix all of whose characters satisfy `p`.
pub proof fn lemma_lead(s: Seq<char>, p: spec_fn(char) -> bool, k: int)
    requires
        0 <= k <= s.len(),
        forall|i: int| 0 <= i < k ==> p(#[trigger] s[i]),
        k < s.len() ==> !p(s[k]),
    ensures
        lead(s, p) == k,
    decreases k,
{
    if k > 0 {
        assert forall|i: int| 0 <= i < k - 1 implies p(#[trigger] s.drop_first()[i]) by {
            assert(s.drop_first()[i] == s[i + 1]);
        }
        lemma_lead(s.drop_first(), p, k - 1);
    }
}

pub proof fn lemma_trail_le(s: Seq<char>, p: spec_fn(char) -> bool)
    ensures
        trail(s, p) <= s.len(),
    decreases s.len(),
{
    if s.len() > 0 && p(s.last()) {
        lemma_trail_le(s.drop_last(), p);
    }
}

pub proof fn lemma_trail(s: Seq<char>, p: spec_fn(char) -> bool, k: int)
    requires
        0 <= k <= s.len(),
        forall|i: int| s.len() - k <= i < s.len() ==> p(#[trigger] s[i]),
        k < s.len() ==> !p(s[s.len() - k - 1]),
    ensures
        trail(s, p) == k,
    decreases k,
{
    if k > 0 {
        let t = s.drop_last();
        assert forall|i: int| t.len() - (k - 1) <= i < t.len() implies p(#[trigger] t[i]) by {
            assert(t[i] == s[i]);
        }
        if k - 1 < t.len() {
            assert(t[t.len() - (k - 1) - 1] == s[s.len() - k - 1]);
        }
        lemma_trail(t, p, k - 1);
    }
}

/// `find` is the leftmost match.
pub proof fn lemma_find(s: Seq<char>, p: Seq<char>, k: int)
    requires
        p.len() > 0,
        -1 <= k,
        k >= 0 ==> matches_at(s, p, k),
        forall|i: int| 0 <= i && (k < 0 || i < k) ==> !matches_at(s, p, i),
    ensures
        find(s, p) == k,
    decreases s.len(),
{
    if s.len() < p.len() {
        if k >= 0 {
            assert(false);
        }
    } else if matches_at(s, p, 0) {
        if k != 0 {
            assert(false);
        }
    } else {
        let t = s.drop_first();
        assert forall|i: int| 0 <= i && (k - 1 < 0 || i < k - 1) implies !matches_at(t, p, i) by {
            if matches_at(t, p, i) {
                assert(s.subrange(i + 1, i + 1 + p.len()) == t.subrange(i, i + p.len()));
                assert(matches_at(s, p, i + 1));
            }
        }
        if k >= 0 {
            assert(k > 0);
            assert(s.subrange(k, k + p.len()) == t.subrange(k - 1, k - 1 + p.len()));
            lemma_find(t, p, k - 1);
        } else {
            lemma_find(t, p, -1);
        }
    }
}

pub proof fn lemma_find_bounds(s: Seq<char>, p: Seq<char>)
    ensures
        find(s, p) >= -1,
        find(s, p) >= 0 ==> matches_at(s, p, find(s, p)),
        forall|i: int| 0 <= i && (find(s, p) < 0 || i < find(s, p)) ==> !matches_at(s, p, i),
    decreases s.len(),
{
    if s.len() < p.len() {
    } else if matches_at(s, p, 0) {
    } else if s.len() == 0 {
    } else {
        let t = s.drop_first();
        lemma_find_bounds(t, p);
        let r = find(t, p);
        if r >= 0 {
            assert(s.subrange(r + 1, r + 1 + p.len()) == t.subrange(r, r + p.len()));
        }
        assert forall|i: int| 0 <= i && (find(s, p) < 0 || i < find(s, p)) implies !matches_at(s, p, i) by {
            if i > 0 && matches_at(s, p, i) {
                assert(s.subrange(i, i + p.len()) == t.subrange(i - 1, i - 1 + p.len()));
                assert(matches_at(t, p, i - 1));
            }
        }
    }
}


pub proof fn lemma_digits_value_prefix(s: Seq<char>, i: int)
    requires
        0 <= i <= s.len(),
    ensures
        digits_value(s.take(i)) <= digits_value(s),
    decreases s.len(),
{
    if i < s.len() {
        assert(s.drop_last().take(i) == s.take(i));
        lemma_digits_value_prefix(s.drop_last(), i);
    } else {
        assert(s.take(i) == s);
    }
}

// ---------------------------------------------------------------------------
// Executable operations
// ---------------------------------------------------------------------------

/// Appends one character to a `String` (`String::push`).
#[verifier::external_body]
fn push_char(s: &mut String, c: char)
    ensures
        final(s)@ == old(s)@.push(c),
{
    s.push(c)
}

/// The characters of `s`, in order.
pub fn chars_of(s: &str) -> (v: Vec<char>)
    ensures
        v@ == s@,
{
    let mut v: Vec<char> = Vec::new();
    for c in it: s.chars()
        invariant
            v@ == it.seq().take(it.index()),
            it.seq() == s@,
    {
        v.push(c);
    }
    v
}

/// The string made of `v[lo..hi]`.
pub fn string_of(v: &Vec<char>, lo: usize, hi: usize) -> (r: String)
    requires
        lo <= hi <= v.len(),
    ensures
        r@ == v@.subrange(lo as int, hi as int),
{
    let mut r = String::new();
    let mut i = lo;
    while i < hi
        invariant
            lo <= i <= hi <= v.len(),
            r@ == v@.subrange(lo as int, i as int),
        decreases hi - i,
    {
        push_char(&mut r, v[i]);
        assert(v@.subrange(lo as int, i + 1) == v@.subrange(lo as int, i as int).push(v@[i as int]));
        i = i + 1;
    }
    r
}

/// The string whose characters are `s`.
pub fn string_from(v: &Vec<char>) -> (r: String)
    ensures
        r@ == v@,
{
    let r = string_of(v, 0, v.len());
    assert(v@.subrange(0, v.len() as int) == v@);
    r
}

/// Whether `c` is white space (`char::is_whitespace`).
pub fn is_ws_char(c: char) -> (b: bool)
    ensures
        b == is_ws(c),
{
    let u = c as u32;
    (9 <= u && u <= 13) || u == 32 || u == 0x85 || u == 0xa0 || u == 0x1680 || (0x2000 <= u
        && u <= 0x200a) || u == 0x2028 || u == 0x2029 || u == 0x202f || u == 0x205f || u
        == 0x3000
}

/// The lines of `s` (`str::lines`).
pub fn lines_of(s: &str) -> (out: Vec<String>)
    ensures
        views(out@) == lines(s@),
{
    let v = chars_of(s);
    let n = v.len();
    let mut out: Vec<String> = Vec::new();
    let mut start: usize = 0;
    let mut j: usize = 0;
    assert(v@.skip(0) == v@);
    while j < n
        invariant
            n == v.len(),
            start <= j <= n,
            views(out@) + lines(v@.skip(start as int)) == lines(v@),
            forall|i: int| start <= i < j ==> v@[i] != '\n',
        decreases n - j,
    {
        if v[j] == '\n' {
            let ghost t = v@.skip(start as int);
            proof {
                lemma_lead(t, not_char('\n'), j - start);
                assert(t.skip(j - start + 1) == v@.skip(j + 1));
            }
            let end = if j > start && v[j - 1] == '\r' {
                j - 1
            } else {
                j
            };
            let line = string_of(&v, start, end);
            proof {
                assert(t.take(j - start) == v@.subrange(start as int, j as int));
                assert(line@ == strip_cr(t.take(j - start)));
            }
            let ghost prev = out@;
            out.push(line);
            assert(views(out@) =~= views(prev).push(line@));
            start = j + 1;
        }
        j = j + 1;
    }
    if start < n {
        let ghost t = v@.skip(start as int);
        proof {
            lemma_lead(t, not_char('\n'), n - start);
        }
        let line = string_of(&v, start, n);
        assert(line@ == t);
        let ghost prev = out@;
        out.push(line);
        assert(views(out@) =~= views(prev).push(line@));
    } else {
        assert(v@.skip(start as int).len() == 0);
        assert(views(out@) + seq![] == views(out@));
    }
    out
}


/// The character sequences of a sequence of character vectors.
pub open spec fn vviews(v: Seq<Vec<char>>) -> Seq<Seq<char>> {
    v.map_values(|x: Vec<char>| x@)
}

/// A copy of `v[lo..hi]`.
pub fn slice_of(v: &Vec<char>, lo: usize, hi: usize) -> (r: Vec<char>)
    requires
        lo <= hi <= v.len(),
    ensures
        r@ == v@.subrange(lo as int, hi as int),
{
    let mut r: Vec<char> = Vec::new();
    let mut i = lo;
    while i < hi
        invariant
            lo <= i <= hi <= v.len(),
            r@ == v@.subrange(lo as int, i as int),
        decreases hi - i,
    {
        r.push(v[i]);
        assert(v@.subrange(lo as int, i + 1) == v@.subrange(lo as int, i as int).push(v@[i as int]));
        i = i + 1;
    }
    r
}

/// Whether two character vectors hold the same characters.
pub fn chars_eq(a: &Vec<char>, b: &Vec<char>) -> (r: bool)
    ensures
        r == (a@ == b@),
{
    if a.len() != b.len() {
        return false;
    }
    let mut i: usize = 0;
    while i < a.len()
        invariant
            a.len() == b.len(),
            i <= a.len(),
            forall|k: int| 0 <= k < i ==> a@[k] == b@[k],
        decreases a.len() - i,
    {
        if a[i] != b[i] {
            return false;
        }
        i = i + 1;
    }
    assert(a@ =~= b@);
    true
}

/// Whether the string `s` is the literal `lit`.
pub fn str_eq(s: &str, lit: &str) -> (r: bool)
    ensures
        r == (s@ == lit@),
{
    let a = chars_of(s);
    let b = chars_of(lit);
    chars_eq(&a, &b)
}

/// Whether `v[lo..]` starts with `p`.
pub fn prefix_at(v: &Vec<char>, lo: usize, p: &Vec<char>) -> (r: bool)
    requires
        lo <= v.len(),
    ensures
        r == has_prefix(v@.skip(lo as int), p@),
        r == matches_at(v@, p@, lo as int),
{
    if p.len() > v.len() - lo {
        return false;
    }
    let mut i: usize = 0;
    while i < p.len()
        invariant
            lo + p.len() <= v.len(),
            i <= p.len(),
            forall|k: int| 0 <= k < i ==> v@[lo + k] == p@[k],
        decreases p.len() - i,
    {
        if v[lo + i] != p[i] {
            assert(v@.skip(lo as int).take(p.len() as int)[i as int] != p@[i as int]);
            assert(v@.subrange(lo as int, lo + p.len())[i as int] != p@[i as int]);
            return false;
        }
        i = i + 1;
    }
    assert(v@.skip(lo as int).take(p.len() as int) =~= p@);
    assert(v@.subrange(lo as int, lo + p.len()) =~= p@);
    true
}

/// Whether `v` starts with the literal `lit`.
pub fn starts_with(v: &Vec<char>, lit: &str) -> (r: bool)
    ensures
        r == has_prefix(v@, lit@),
{
    let p = chars_of(lit);
    assert(v@.skip(0) == v@);
    prefix_at(v, 0, &p)
}

/// Whether `v` ends with the literal `lit`.
pub fn ends_with(v: &Vec<char>, lit: &str) -> (r: bool)
    ensures
        r == has_suffix(v@, lit@),
{
    let p = chars_of(lit);
    if p.len() > v.len() {
        return false;
    }
    let lo = v.len() - p.len();
    let r = prefix_at(v, lo, &p);
    assert(v@.skip(lo as int).take(p.len() as int) == v@.skip(lo as int));
    r
}

/// The leftmost occurrence of the non-empty `p` in `v`.
pub fn find_in(v: &Vec<char>, p: &Vec<char>) -> (r: Option<usize>)
    requires
        p.len() > 0,
    ensures
        match r {
            Some(k) => find(v@, p@) == k as int,
            None => find(v@, p@) == -1,
        },
{
    if p.len() > v.len() {
        proof {
            lemma_find(v@, p@, -1);
        }
        return None;
    }
    let last = v.len() - p.len();
    let mut i: usize = 0;
    while i <= last
        invariant
            last + p.len() == v.len(),
            p.len() > 0,
            forall|k: int| 0 <= k < i ==> !matches_at(v@, p@, k),
        decreases last + 1 - i,
    {
        if prefix_at(v, i, p) {
            proof {
                lemma_find(v@, p@, i as int);
            }
            return Some(i);
        }
        i = i + 1;
    }
    proof {
        assert forall|k: int| 0 <= k implies !matches_at(v@, p@, k) by {
            if k > last {
                assert(k + p.len() > v.len());
            }
        }
        lemma_find(v@, p@, -1);
    }
    None
}

/// `split_once` on the literal `lit`.
pub fn split_once_lit(v: &Vec<char>, lit: &str) -> (r: Option<(Vec<char>, Vec<char>)>)
    requires
        lit@.len() > 0,
    ensures
        match r {
            Some((a, b)) => split_once(v@, lit@) == Some((a@, b@)),
            None => split_once(v@, lit@) is None,
        },
{
    let p = chars_of(lit);
    match find_in(v, &p) {
        Some(k) => {
            proof {
                lemma_find_bounds(v@, p@);
                assert(matches_at(v@, p@, k as int));
            }
            assert(k + p.len() <= v.len());
            let a = slice_of(v, 0, k);
            let b = slice_of(v, k + p.len(), v.len());
            assert(a@ == v@.take(k as int));
            assert(b@ == v@.skip(k + p.len()));
            Some((a, b))
        },
        None => None,
    }
}

/// Whether `v` contains the literal `lit`.
pub fn contains_lit(v: &Vec<char>, lit: &str) -> (r: bool)
    requires
        lit@.len() > 0,
    ensures
        r == contains(v@, lit@),
{
    let p = chars_of(lit);
    find_in(v, &p).is_some()
}

/// `str::split` on the literal `lit`.
pub fn split_lit(v: &Vec<char>, lit: &str) -> (r: Vec<Vec<char>>)
    requires
        lit@.len() > 0,
    ensures
        vviews(r@) == split(v@, lit@),
{
    let p = chars_of(lit);
    let mut out: Vec<Vec<char>> = Vec::new();
    let mut rest = slice_of(v, 0, v.len());
    assert(rest@ == v@);
    loop
        invariant
            p@ == lit@,
            p.len() > 0,
            vviews(out@) + split(rest@, p@) == split(v@, p@),
        decreases rest.len(),
    {
        match find_in(&rest, &p) {
            Some(k) => {
                proof {
                    lemma_find_bounds(rest@, p@);
                }
                let a = slice_of(&rest, 0, k);
                let b = slice_of(&rest, k + p.len(), rest.len());
                let ghost prev = out@;
                out.push(a);
                assert(vviews(out@) =~= vviews(prev).push(a@));
                assert(split(rest@, p@) == seq![a@] + split(b@, p@));
                assert(vviews(out@) + split(b@, p@) =~= vviews(prev) + split(rest@, p@));
                rest = b;
            },
            None => {
                let ghost prev = out@;
                assert(split(rest@, p@) == seq![rest@]);
                out.push(rest);
                assert(vviews(out@) =~= vviews(prev) + split(v@, p@).skip(prev.len() as int)) by {
                    assert(vviews(out@) =~= vviews(prev).push(rest@));
                }
                assert(vviews(out@) =~= split(v@, p@));
                return out;
            },
        }
    }
}

/// Index of the first character at or after `lo` that is not white space.
fn skip_ws(v: &Vec<char>, lo: usize) -> (r: usize)
    requires
        lo <= v.len(),
    ensures
        lo <= r <= v.len(),
        lead(v@.skip(lo as int), ws()) == r - lo,
{
    let mut i = lo;
    while i < v.len() && is_ws_char(v[i])
        invariant
            lo <= i <= v.len(),
            forall|k: int| lo <= k < i ==> is_ws(#[trigger] v@[k]),
        decreases v.len() - i,
    {
        i = i + 1;
    }
    proof {
        let t = v@.skip(lo as int);
        assert forall|k: int| 0 <= k < i - lo implies (ws())(#[trigger] t[k]) by {
            assert(t[k] == v@[lo + k]);
        }
        lemma_lead(t, ws(), i - lo);
    }
    i
}

/// Index of the first white-space character at or after `lo`.
fn skip_non_ws(v: &Vec<char>, lo: usize) -> (r: usize)
    requires
        lo <= v.len(),
    ensures
        lo <= r <= v.len(),
        lead(v@.skip(lo as int), non_ws()) == r - lo,
{
    let mut i = lo;
    while i < v.len() && !is_ws_char(v[i])
        invariant
            lo <= i <= v.len(),
            forall|k: int| lo <= k < i ==> !is_ws(#[trigger] v@[k]),
        decreases v.len() - i,
    {
        i = i + 1;
    }
    proof {
        let t = v@.skip(lo as int);
        assert forall|k: int| 0 <= k < i - lo implies (non_ws())(#[trigger] t[k]) by {
            assert(t[k] == v@[lo + k]);
        }
        lemma_lead(t, non_ws(), i - lo);
    }
    i
}

/// The white-space separated words of `v` (`str::split_whitespace`).
pub fn words_of(v: &Vec<char>) -> (r: Vec<Vec<char>>)
    ensures
        vviews(r@) == words(v@),
{
    let mut out: Vec<Vec<char>> = Vec::new();
    let mut i: usize = 0;
    assert(v@.skip(0) == v@);
    loop
        invariant
            i <= v.len(),
            vviews(out@) + words(v@.skip(i as int)) == words(v@),
        decreases v.len() - i,
    {
        let a = skip_ws(v, i);
        let ghost s = v@.skip(i as int);
        proof {
            lemma_lead_le(s, ws());
            assert(s.skip(a - i) == v@.skip(a as int));
        }
        if a == v.len() {
            assert(words(s) == Seq::<Seq<char>>::empty());
            assert(vviews(out@) + seq![] == vviews(out@));
            return out;
        }
        let b = skip_non_ws(v, a);
        proof {
            assert(!is_ws(v@[a as int]));
            assert(v@.skip(a as int)[0] == v@[a as int]);
            assert(b > a) by {
                lemma_lead_le(v@.skip(a as int), non_ws());
                if b == a {
                    assert((non_ws())(v@.skip(a as int)[0]));
                }
            }
        }
        let w = slice_of(v, a, b);
        proof {
            let t = v@.skip(a as int);
            assert(t.take(b - a) == w@);
            assert(t.skip(b - a) == v@.skip(b as int));
            assert(words(s) == seq![w@] + words(v@.skip(b as int)));
        }
        let ghost prev = out@;
        out.push(w);
        assert(vviews(out@) =~= vviews(prev).push(w@));
        assert(vviews(out@) + words(v@.skip(b as int)) =~= vviews(prev) + (seq![w@] + words(v@.skip(b as int))));
        i = b;
    }
}

/// `v` with surrounding white space removed (`str::trim`).
pub fn trim_of(v: &Vec<char>) -> (r: Vec<char>)
    ensures
        r@ == trim(v@),
{
    let a = skip_ws(v, 0);
    assert(v@.skip(0) == v@);
    let mut b = v.len();
    while b > a && is_ws_char(v[b - 1])
        invariant
            a <= b <= v.len(),
            forall|k: int| b <= k < v.len() ==> is_ws(#[trigger] v@[k]),
        decreases b,
    {
        b = b - 1;
    }
    proof {
        let t = v@.skip(a as int);
        assert forall|k: int| t.len() - (v.len() - b) <= k < t.len() implies (ws())(#[trigger] t[k]) by {
            assert(t[k] == v@[a + k]);
        }
        if b > a {
            assert(t[t.len() - (v.len() - b) - 1] == v@[b - 1]);
        }
        lemma_trail(t, ws(), v.len() - b);
        assert(t.take(t.len() - (v.len() - b)) =~= v@.subrange(a as int, b as int));
    }
    slice_of(v, a, b)
}

/// `v` without its leading copies of `c` (`str::trim_start_matches`).
pub fn trim_start_char_of(v: &Vec<char>, c: char) -> (r: Vec<char>)
    ensures
        r@ == trim_start_char(v@, c),
{
    let mut i: usize = 0;
    while i < v.len() && v[i] == c
        invariant
            i <= v.len(),
            forall|k: int| 0 <= k < i ==> #[trigger] v@[k] == c,
        decreases v.len() - i,
    {
        i = i + 1;
    }
    proof {
        assert forall|k: int| 0 <= k < i implies (is_char(c))(#[trigger] v@[k]) by {}
        lemma_lead(v@, is_char(c), i as int);
    }
    slice_of(v, i, v.len())
}

/// An unsigned number read as `str::parse` reads it, bounded by `max`.
pub fn parse_number(v: &Vec<char>, max: u64) -> (r: Option<u64>)
    requires
        max >= 10,
    ensures
        match r {
            Some(n) => parse_nat(v@, max as nat) == Some(n as nat),
            None => parse_nat(v@, max as nat) is None,
        },
{
    let start: usize = if v.len() > 1 && v[0] == '+' {
        1
    } else {
        0
    };
    let ghost d = if v@.len() > 1 && v@[0] == '+' {
        v@.drop_first()
    } else {
        v@
    };
    assert(d == v@.skip(start as int));
    if start == v.len() {
        return None;
    }
    let mut acc: u64 = 0;
    let mut i = start;
    while i < v.len()
        invariant
            start <= i <= v.len(),
            d == v@.skip(start as int),
            acc as nat == digits_value(d.take(i - start)),
            all_digits(d.take(i - start)),
            acc <= max,
            max >= 10,
            d == (if v@.len() > 1 && v@[0] == '+' { v@.drop_first() } else { v@ }),
        decreases v.len() - i,
    {
        let c = v[i];
        let ghost t = d.take(i - start + 1);
        assert(t.drop_last() == d.take(i - start));
        assert(t.last() == c);
        if !('0' <= c && c <= '9') {
            assert(d[i - start] == v@[i as int]);
            assert(!is_digit(d[i - start]));
            assert(!all_digits(d));
            return None;
        }
        let dv = (c as u32 - '0' as u32) as u64;
        assert(dv as nat == digit_value(c));
        assert(dv <= 9);
        if acc > (max - dv) / 10 {
            proof {
                assert(digits_value(t) == acc * 10 + dv);
                assert(digits_value(t) > max) by (nonlinear_arith)
                    requires
                        acc > (max - dv) / 10,
                        digits_value(t) == acc * 10 + dv,
                        dv <= max,
                ;
                lemma_digits_value_prefix(d, i - start + 1);
            }
            return None;
        }
        proof {
            assert(acc * 10 + dv <= max) by (nonlinear_arith)
                requires
                    acc <= (max - dv) / 10,
                    dv <= max,
            ;
        }
        acc = acc * 10 + dv;
        assert(all_digits(t));
        i = i + 1;
    }
    assert(d.take(v.len() - start) == d);
    Some(acc)
}

fn digit_of(d: usize) -> (c: char)
    requires
        d < 10,
    ensures
        c == digit_char(d as nat),
{
    if d == 0 { '0' } else if d == 1 { '1' } else if d == 2 { '2' } else if d == 3 { '3' }
    else if d == 4 { '4' } else if d == 5 { '5' } else if d == 6 { '6' } else if d == 7 { '7' }
    else if d == 8 { '8' } else { '9' }
}

/// Appends the decimal notation of `n`.
pub fn push_decimal(out: &mut Vec<char>, n: u64)
    ensures
        final(out)@ == old(out)@ + decimal(n as nat),
    decreases n,
{
    if n >= 10 {
        push_decimal(out, n / 10);
    }
    out.push(digit_of((n % 10) as usize));
    proof {
        if n >= 10 {
            assert(old(out)@ + decimal(n as nat) =~= old(out)@ + decimal((n / 10) as nat) + seq![digit_char((n % 10) as nat)]);
        } else {
            assert(decimal(n as nat) == seq![digit_char(n as nat)]);
        }
    }
}

/// `prefix` followed by the decimal notation of `n` (`format!("{prefix}{n}")`).
pub fn numbered(prefix: &str, n: u64) -> (r: String)
    ensures
        r@ == prefix@ + decimal(n as nat),
{
    let mut v = chars_of(prefix);
    push_decimal(&mut v, n);
    string_from(&v)
}

/// A `String` holding the characters of `s`.
pub fn owned(s: &str) -> (r: String)
    ensures
        r@ == s@,
{
    let v = chars_of(s);
    string_from(&v)
}


/// `str::rsplit_once` on one character.
pub fn rsplit_once_char(v: &Vec<char>, c: char) -> (r: Option<(Vec<char>, Vec<char>)>)
    ensures
        match r {
            Some((a, b)) => rsplit_once(v@, c) == Some((a@, b@)),
            None => rsplit_once(v@, c) is None,
        },
{
    let mut t: usize = 0;
    while t < v.len() && v[v.len() - 1 - t] != c
        invariant
            t <= v.len(),
            forall|k: int| v.len() - t <= k < v.len() ==> #[trigger] v@[k] != c,
        decreases v.len() - t,
    {
        t = t + 1;
    }
    proof {
        assert forall|k: int| v.len() - t <= k < v.len() implies (not_char(c))(#[trigger] v@[k]) by {}
        lemma_trail(v@, not_char(c), t as int);
    }
    if t == v.len() {
        None
    } else {
        let k = v.len() - t - 1;
        Some((slice_of(v, 0, k), slice_of(v, k + 1, v.len())))
    }
}

/// The part of `v` before the first occurrence of the literal `lit`.
pub fn first_piece_of(v: &Vec<char>, lit: &str) -> (r: Vec<char>)
    requires
        lit@.len() > 0,
    ensures
        r@ == first_piece(v@, lit@),
{
    let p = chars_of(lit);
    match find_in(v, &p) {
        Some(k) => {
            proof {
                lemma_find_bounds(v@, p@);
            }
            slice_of(v, 0, k)
        },
        None => slice_of(v, 0, v.len()),
    }
}

/// Whether every character of `v` is a decimal digit.
pub fn all_digits_exec(v: &Vec<char>) -> (b: bool)
    ensures
        b == all_digits(v@),
{
    let mut i: usize = 0;
    while i < v.len()
        invariant
            i <= v.len(),
            forall|k: int| 0 <= k < i ==> is_digit(#[trigger] v@[k]),
        decreases v.len() - i,
    {
        if !('0' <= v[i] && v[i] <= '9') {
            return false;
        }
        i = i + 1;
    }
    true
}


/// The characters of `v` with every ASCII capital letter made small.
pub fn lower_of(v: &Vec<char>) -> (r: Vec<char>)
    ensures
        r@ == lower(v@),
{
    let mut r: Vec<char> = Vec::new();
    let mut i: usize = 0;
    while i < v.len()
        invariant
            i <= v.len(),
            r@ == lower(v@.take(i as int)),
        decreases v.len() - i,
    {
        let c = v[i];
        let d = if 'A' <= c && c <= 'Z' {
            ((c as u8) + 32) as char
        } else {
            c
        };
        assert(d == ascii_lower(c));
        r.push(d);
        assert(lower(v@.take(i + 1)) == lower(v@.take(i as int)).push(ascii_lower(v@[i as int])));
        i = i + 1;
    }
    assert(v@.take(v.len() as int) == v@);
    r
}


/// `v` without its trailing characters equal to `c`.
pub fn trim_end_char_of(v: &Vec<char>, c: char) -> (r: Vec<char>)
    ensures
        r@ == trim_end_char(v@, c),
{
    let mut t: usize = 0;
    while t < v.len() && v[v.len() - 1 - t] == c
        invariant
            t <= v.len(),
            forall|k: int| v.len() - t <= k < v.len() ==> #[trigger] v@[k] == c,
        decreases v.len() - t,
    {
        t = t + 1;
    }
    proof {
        assert forall|k: int| v.len() - t <= k < v.len() implies (is_char(c))(#[trigger] v@[k]) by {}
        lemma_trail(v@, is_char(c), t as int);
    }
    slice_of(v, 0, v.len() - t)
}

/// `a` followed by `b`.
pub fn concat(a: &str, b: &str) -> (r: String)
    ensures
        r@ == a@ + b@,
{
    let mut v = chars_of(a);
    let w = chars_of(b);
    let ghost v0 = v@;
    let mut k: usize = 0;
    while k < w.len()
        invariant
            k <= w.len(),
            v@ == v0 + w@.take(k as int),
        decreases w.len() - k,
    {
        v.push(w[k]);
        assert(w@.take(k + 1) == w@.take(k as int).push(w[k as int]));
        k = k + 1;
    }
    assert(w@.take(w.len() as int) == w@);
    string_from(&v)
}

/// A line break written as CRLF splits a text just as LF does: the carriage
/// return before the line feed is not part of the line (as `str::lines`
/// reads text), unless the line already ends in a carriage return of its own.
pub proof fn law_crlf_is_a_line_break(x: Seq<char>, y: Seq<char>)
    requires
        !(x.len() > 0 && x.last() == '\r'),
    ensures
        lines(x + seq!['\r', '\n'] + y) == lines(x + seq!['\n'] + y),
    decreases x.len(),
{
    let s1 = x + seq!['\r', '\n'] + y;
    let s2 = x + seq!['\n'] + y;
    let n = x.len() as int;
    lemma_lead_le(x, not_char('\n'));
    let j = lead(x, not_char('\n')) as int;
    if j < n {
        assert(x[j] == '\n');
        assert forall|i: int| 0 <= i < j implies (not_char('\n'))(#[trigger] s1[i]) by {
            assert(s1[i] == x[i]);
            assert((not_char('\n'))(x[i]));
        }
        assert forall|i: int| 0 <= i < j implies (not_char('\n'))(#[trigger] s2[i]) by {
            assert(s2[i] == x[i]);
            assert((not_char('\n'))(x[i]));
        }
        assert(s1[j] == '\n');
        assert(s2[j] == '\n');
        lemma_lead(s1, not_char('\n'), j);
        lemma_lead(s2, not_char('\n'), j);
        let rest = x.skip(j + 1);
        assert(s1.take(j) =~= x.take(j));
        assert(s2.take(j) =~= x.take(j));
        assert(s1.skip(j + 1) =~= rest + seq!['\r', '\n'] + y);
        assert(s2.skip(j + 1) =~= rest + seq!['\n'] + y);
        if rest.len() > 0 {
            assert(rest.last() == x.last());
        }
        law_crlf_is_a_line_break(rest, y);
    } else {
        assert forall|i: int| 0 <= i < n + 1 implies (not_char('\n'))(#[trigger] s1[i]) by {
            if i < n {
                assert(s1[i] == x[i]);
                assert((not_char('\n'))(x[i]));
            } else {
                assert(s1[i] == '\r');
            }
        }
        assert forall|i: int| 0 <= i < n implies (not_char('\n'))(#[trigger] s2[i]) by {
            assert(s2[i] == x[i]);
            assert((not_char('\n'))(x[i]));
        }
        assert(s1[n + 1] == '\n');
        assert(s2[n] == '\n');
        lemma_lead(s1, not_char('\n'), n + 1);
        lemma_lead(s2, not_char('\n'), n);
        assert(s1.take(n + 1) =~= x.push('\r'));
        assert(x.push('\r').drop_last() =~= x);
        assert(s2.take(n) =~= x);
        assert(s1.skip(n + 2) =~= y);
        assert(s2.skip(n + 1) =~= y);
    }
}

/// Appending a line (without a line feed and not ending in a carriage return)
/// after a text that is empty or ends in a line feed adds exactly that line.
pub proof fn lemma_lines_push(c: Seq<char>, l: Seq<char>)
    requires
        c.len() == 0 || c.last() == '\n',
        l.len() > 0,
        forall|i: int| 0 <= i < l.len() ==> l[i] != '\n',
        l.last() != '\r',
    ensures
        lines(c + l) == lines(c).push(l),
    decreases c.len(),
{
    let s = c + l;
    if c.len() == 0 {
        assert(s =~= l);
        assert forall|i: int| 0 <= i < l.len() implies (not_char('\n'))(#[trigger] l[i]) by {}
        lemma_lead(l, not_char('\n'), l.len() as int);
        assert(lines(c) =~= Seq::<Seq<char>>::empty());
        assert(lines(l) =~= seq![l]);
    } else {
        lemma_lead_le(c, not_char('\n'));
        let j = lead(c, not_char('\n')) as int;
        if j >= c.len() {
            assert((not_char('\n'))(c[c.len() - 1]));
            assert(false);
        }
        assert forall|i: int| 0 <= i < j implies (not_char('\n'))(#[trigger] s[i]) by {
            assert(s[i] == c[i]);
            assert((not_char('\n'))(c[i]));
        }
        assert(s[j] == c[j]);
        lemma_lead(s, not_char('\n'), j);
        let rest = c.skip(j + 1);
        assert(s.take(j) =~= c.take(j));
        assert(s.skip(j + 1) =~= rest + l);
        if rest.len() > 0 {
            assert(rest.last() == c.last());
        }
        lemma_lines_push(rest, l);
        assert(lines(s) =~= seq![strip_cr(c.take(j))] + lines(rest).push(l));
        assert(lines(c) == seq![strip_cr(c.take(j))] + lines(rest));
    }
}

} // verus!
