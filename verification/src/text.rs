//! Text as sequences of characters: the spec functions that the contracts of
//! the other modules speak of, and the executable functions that compute them.

use vstd::prelude::*;
use vstd::string::StrSliceExecFns;
use vstd::string::StringExecFns;

verus! {

/// `pat` stands in `s` at position `i`.
pub open spec fn occurs_at(s: Seq<char>, pat: Seq<char>, i: int) -> bool {
    0 <= i && i + pat.len() <= s.len() && s.subrange(i, i + pat.len()) == pat
}

/// `s` begins with `pat`.
pub open spec fn has_prefix(s: Seq<char>, pat: Seq<char>) -> bool {
    occurs_at(s, pat, 0)
}

/// `s` ends with `pat`.
pub open spec fn has_suffix(s: Seq<char>, pat: Seq<char>) -> bool {
    occurs_at(s, pat, s.len() - pat.len())
}

/// `pat` stands somewhere in `s`.
pub open spec fn has_sub(s: Seq<char>, pat: Seq<char>) -> bool {
    exists|i: int| occurs_at(s, pat, i)
}

/// The first position at or after `from` at which `pat` stands in `s`, or
/// the length of `s` plus one where there is none.
pub open spec fn first_at(s: Seq<char>, pat: Seq<char>, from: int) -> int
    decreases s.len() + 1 - from,
{
    if from < 0 || from + pat.len() > s.len() {
        s.len() as int + 1
    } else if occurs_at(s, pat, from) {
        from
    } else {
        first_at(s, pat, from + 1)
    }
}

/// The characters with the Unicode property White_Space.
pub open spec fn is_space(c: char) -> bool {
    let n = c as u32;
    (0x09 <= n <= 0x0d) || n == 0x20 || n == 0x85 || n == 0xa0 || n == 0x1680 || (0x2000 <= n
        <= 0x200a) || n == 0x2028 || n == 0x2029 || n == 0x202f || n == 0x205f || n == 0x3000
}

/// The number of leading white-space characters of `s`.
pub open spec fn lead_spaces(s: Seq<char>) -> int
    decreases s.len(),
{
    if s.len() > 0 && is_space(s[0]) {
        1 + lead_spaces(s.drop_first())
    } else {
        0
    }
}

/// The number of trailing white-space characters of `s`.
pub open spec fn trail_spaces(s: Seq<char>) -> int
    decreases s.len(),
{
    if s.len() > 0 && is_space(s.last()) {
        1 + trail_spaces(s.drop_last())
    } else {
        0
    }
}

/// `s` without its leading white space.
pub open spec fn trim_start(s: Seq<char>) -> Seq<char> {
    s.subrange(lead_spaces(s), s.len() as int)
}

/// `s` without its leading and trailing white space.
pub open spec fn trimmed(s: Seq<char>) -> Seq<char> {
    let t = trim_start(s);
    t.subrange(0, t.len() - trail_spaces(t))
}

/// A run of white space that starts at the front and is followed by another
/// character, or reaches the end, is the whole leading white space.
pub proof fn lemma_lead_spaces_is(s: Seq<char>, n: int)
    requires
        0 <= n <= s.len(),
        forall|i: int| 0 <= i < n ==> is_space(#[trigger] s[i]),
        n < s.len() ==> !is_space(s[n]),
    ensures
        lead_spaces(s) == n,
    decreases s.len(),
{
    if n > 0 {
        let t = s.drop_first();
        assert forall|i: int| 0 <= i < n - 1 implies is_space(#[trigger] t[i]) by {
            assert(t[i] == s[i + 1]);
        }
        lemma_lead_spaces_is(t, n - 1);
    }
}

/// The same, from the back.
pub proof fn lemma_trail_spaces_is(s: Seq<char>, n: int)
    requires
        0 <= n <= s.len(),
        forall|i: int| s.len() - n <= i < s.len() ==> is_space(#[trigger] s[i]),
        n < s.len() ==> !is_space(s[s.len() - n - 1]),
    ensures
        trail_spaces(s) == n,
    decreases s.len(),
{
    if n > 0 {
        let t = s.drop_last();
        assert forall|i: int| t.len() - (n - 1) <= i < t.len() implies is_space(#[trigger] t[i]) by {
            assert(t[i] == s[i]);
        }
        lemma_trail_spaces_is(t, n - 1);
    }
}

pub proof fn lemma_first_at(s: Seq<char>, pat: Seq<char>, from: int)
    requires
        0 <= from,
    ensures
        first_at(s, pat, from) <= s.len() + 1,
        first_at(s, pat, from) <= s.len() ==> from <= first_at(s, pat, from) && occurs_at(
            s,
            pat,
            first_at(s, pat, from),
        ),
        forall|i: int| from <= i < first_at(s, pat, from) ==> !occurs_at(s, pat, i),
        first_at(s, pat, from) > s.len() ==> first_at(s, pat, from) == s.len() + 1,
    decreases s.len() + 1 - from,
{
    if from + pat.len() > s.len() {
    } else if occurs_at(s, pat, from) {
    } else {
        lemma_first_at(s, pat, from + 1);
    }
}

/// `has_sub` says that a first position exists.
pub proof fn lemma_has_sub(s: Seq<char>, pat: Seq<char>)
    ensures
        has_sub(s, pat) <==> first_at(s, pat, 0) <= s.len(),
{
    lemma_first_at(s, pat, 0);
    if has_sub(s, pat) {
        let i = choose|i: int| occurs_at(s, pat, i);
        if first_at(s, pat, 0) > s.len() {
            assert(!occurs_at(s, pat, i));
        }
    }
}

/// The characters of `s`.
pub fn to_chars(s: &str) -> (r: Vec<char>)
    ensures
        r@ == s@,
{
    let n = s.unicode_len();
    let mut out: Vec<char> = Vec::new();
    let mut i: usize = 0;
    while i < n
        invariant
            n == s@.len(),
            i <= n,
            out@ == s@.subrange(0, i as int),
        decreases n - i,
    {
        let c = s.get_char(i);
        out.push(c);
        i = i + 1;
        assert(out@ =~= s@.subrange(0, i as int));
    }
    assert(s@.subrange(0, n as int) =~= s@);
    out
}

/// `String::push`: appends one character.
#[verifier::external_body]
fn push_char(s: &mut String, c: char)
    ensures
        final(s)@ == old(s)@.push(c),
{
    s.push(c)
}

/// The text made of the characters of `v` from `from` up to `to`.
pub fn slice_text(v: &Vec<char>, from: usize, to: usize) -> (r: String)
    requires
        from <= to <= v.len(),
    ensures
        r@ == v@.subrange(from as int, to as int),
{
    let mut out = String::new();
    let mut i: usize = from;
    while i < to
        invariant
            from <= i <= to <= v.len(),
            out@ == v@.subrange(from as int, i as int),
        decreases to - i,
    {
        push_char(&mut out, v[i]);
        i = i + 1;
        assert(out@ =~= v@.subrange(from as int, i as int));
    }
    out
}

/// The text made of the characters of `v`.
pub fn text_of(v: &Vec<char>) -> (r: String)
    ensures
        r@ == v@,
{
    let r = slice_text(v, 0, v.len());
    assert(v@.subrange(0, v.len() as int) =~= v@);
    r
}

/// Whether two texts hold the same characters.
pub fn same_text(a: &str, b: &str) -> (r: bool)
    ensures
        r == (a@ == b@),
{
    let x = a.to_owned();
    let y = b.to_owned();
    x == y
}

/// Whether `pat` stands in `s` at position `i`.
pub fn occurs_at_exec(s: &Vec<char>, pat: &Vec<char>, i: usize) -> (r: bool)
    ensures
        r == occurs_at(s@, pat@, i as int),
{
    if pat.len() > s.len() || i > s.len() - pat.len() {
        return false;
    }
    let mut k: usize = 0;
    while k < pat.len()
        invariant
            k <= pat.len(),
            i + pat.len() <= s.len(),
            forall|j: int| 0 <= j < k ==> s[i + j] == pat[j],
        decreases pat.len() - k,
    {
        if s[i + k] != pat[k] {
            proof {
                let sub = s@.subrange(i as int, i + pat.len());
                assert(sub[k as int] == s[i + k]);
            }
            return false;
        }
        k = k + 1;
    }
    assert(s@.subrange(i as int, i + pat.len()) =~= pat@);
    true
}

/// The first position at or after `from` at which `pat` stands in `s`.
pub fn find_from(s: &Vec<char>, pat: &Vec<char>, from: usize) -> (r: Option<usize>)
    ensures
        match r {
            Some(i) => i == first_at(s@, pat@, from as int) && from <= i <= s.len(),
            None => first_at(s@, pat@, from as int) > s.len(),
        },
{
    proof {
        lemma_first_at(s@, pat@, from as int);
    }
    if pat.len() > s.len() || from > s.len() - pat.len() {
        return None;
    }
    let last: usize = s.len() - pat.len();
    let mut i: usize = from;
    loop
        invariant
            from <= i <= last,
            last == s.len() - pat.len(),
            first_at(s@, pat@, from as int) == first_at(s@, pat@, i as int),
        decreases last - i,
    {
        if occurs_at_exec(s, pat, i) {
            proof {
                lemma_first_at(s@, pat@, i as int);
            }
            return Some(i);
        }
        if i == last {
            proof {
                lemma_first_at(s@, pat@, i + 1);
            }
            return None;
        }
        i = i + 1;
    }
}

/// Whether `pat` stands somewhere in `s`.
pub fn contains_text(s: &Vec<char>, pat: &Vec<char>) -> (r: bool)
    ensures
        r == has_sub(s@, pat@),
{
    proof {
        lemma_has_sub(s@, pat@);
    }
    find_from(s, pat, 0).is_some()
}

/// Whether `c` is white space.
pub fn is_space_exec(c: char) -> (r: bool)
    ensures
        r == is_space(c),
{
    let n: u32 = c as u32;
    (0x09 <= n && n <= 0x0d) || n == 0x20 || n == 0x85 || n == 0xa0 || n == 0x1680 || (0x2000 <= n
        && n <= 0x200a) || n == 0x2028 || n == 0x2029 || n == 0x202f || n == 0x205f || n == 0x3000
}

/// The bounds of `s[from..to]` without its leading and trailing white space.
pub fn trim_bounds(s: &Vec<char>, from: usize, to: usize) -> (r: (usize, usize))
    requires
        from <= to <= s.len(),
    ensures
        from <= r.0 <= r.1 <= to,
        s@.subrange(r.0 as int, r.1 as int) == trimmed(s@.subrange(from as int, to as int)),
        r.0 == from + lead_spaces(s@.subrange(from as int, to as int)),
{
    let ghost whole = s@.subrange(from as int, to as int);
    let mut a: usize = from;
    while a < to && is_space_exec(s[a])
        invariant
            from <= a <= to <= s.len(),
            whole == s@.subrange(from as int, to as int),
            forall|i: int| 0 <= i < a - from ==> is_space(#[trigger] whole[i]),
        decreases to - a,
    {
        a = a + 1;
    }
    proof {
        lemma_lead_spaces_is(whole, a - from);
    }
    let ghost rest = trim_start(whole);
    assert(rest =~= s@.subrange(a as int, to as int));
    let mut b: usize = to;
    while b > a && is_space_exec(s[b - 1])
        invariant
            a <= b <= to <= s.len(),
            rest == s@.subrange(a as int, to as int),
            forall|i: int| b - a <= i < to - a ==> is_space(#[trigger] rest[i]),
        decreases b,
    {
        b = b - 1;
    }
    proof {
        lemma_trail_spaces_is(rest, to - b);
        assert(rest.subrange(0, rest.len() - (to - b)) =~= s@.subrange(a as int, b as int));
    }
    (a, b)
}

/// `s` without its leading and trailing white space.
pub fn trim_text(s: &str) -> (r: String)
    ensures
        r@ == trimmed(s@),
{
    let v = to_chars(s);
    let (a, b) = trim_bounds(&v, 0, v.len());
    assert(v@.subrange(0, v.len() as int) =~= v@);
    slice_text(&v, a, b)
}

/// Whether `c` is one of the ten decimal digits.
pub open spec fn is_digit(c: char) -> bool {
    '0' <= c <= '9'
}

/// The number that a decimal digit stands for.
pub open spec fn digit_value(c: char) -> nat {
    (c as u32 - '0' as u32) as nat
}

/// The number that a non-empty run of decimal digits stands for.
pub open spec fn digits_value(s: Seq<char>) -> Option<nat>
    decreases s.len(),
{
    if s.len() == 0 || !is_digit(s.last()) {
        None
    } else if s.len() == 1 {
        Some(digit_value(s.last()))
    } else {
        match digits_value(s.drop_last()) {
            Some(v) => Some(v * 10 + digit_value(s.last())),
            None => None,
        }
    }
}

/// The port number that a text stands for: an optional plus sign, then
/// decimal digits whose value is at most 65535.
pub open spec fn port_of(s: Seq<char>) -> Option<u16> {
    let body = if s.len() > 0 && s[0] == '+' {
        s.drop_first()
    } else {
        s
    };
    match digits_value(body) {
        Some(v) => if v <= 65535 {
            Some(v as u16)
        } else {
            None
        },
        None => None,
    }
}

/// A run of digits with a prefix that is no number, or a number above
/// `bound`, is itself no number at or below `bound`.
pub proof fn lemma_digits_grow(s: Seq<char>, n: int, bound: nat)
    requires
        1 <= n <= s.len(),
        match digits_value(s.take(n)) {
            Some(v) => v > bound,
            None => true,
        },
    ensures
        match digits_value(s) {
            Some(v) => v > bound,
            None => true,
        },
    decreases s.len() - n,
{
    if n < s.len() {
        assert(s.take(n + 1).drop_last() =~= s.take(n));
        lemma_digits_grow(s, n + 1, bound);
    } else {
        assert(s.take(n) =~= s);
    }
}

/// The port number that `s` stands for.
pub fn parse_port(s: &str) -> (r: Option<u16>)
    ensures
        r == port_of(s@),
{
    let v = to_chars(s);
    let start: usize = if v.len() > 0 && v[0] == '+' {
        1
    } else {
        0
    };
    let ghost body = v@.subrange(start as int, v@.len() as int);
    assert(start == 1 ==> body =~= v@.drop_first());
    assert(start == 0 ==> body =~= v@);
    if start == v.len() {
        return None;
    }
    let mut acc: u32 = 0;
    let mut i: usize = start;
    while i < v.len()
        invariant
            start <= i <= v.len(),
            start < v.len(),
            body == v@.subrange(start as int, v@.len() as int),
            v@ == s@,
            body == (if s@.len() > 0 && s@[0] == '+' {
                s@.drop_first()
            } else {
                s@
            }),
            acc <= 65535,
            i > start ==> digits_value(body.take(i - start)) == Some(acc as nat),
            i == start ==> acc == 0,
        decreases v.len() - i,
    {
        let c = v[i];
        let ghost pre = body.take(i - start);
        let ghost cur = body.take(i - start + 1);
        proof {
            assert(cur.drop_last() =~= pre);
            assert(cur.last() == c);
        }
        if !('0' <= c && c <= '9') {
            proof {
                lemma_digits_grow(body, i - start + 1, 65535);
            }
            return None;
        }
        let d: u32 = c as u32 - '0' as u32;
        let next: u32 = acc * 10 + d;
        assert(digits_value(cur) == Some(next as nat));
        if next > 65535 {
            proof {
                lemma_digits_grow(body, i - start + 1, 65535);
            }
            return None;
        }
        acc = next;
        i = i + 1;
    }
    assert(body.take(i - start) =~= body);
    Some(acc as u16)
}

/// The lower-case form of a text.
pub uninterp spec fn lowercase_of(s: Seq<char>) -> Seq<char>;

/// `str::to_lowercase`: the lower-case form of a text.
#[verifier::external_body]
pub(crate) fn to_lowercase(s: &str) -> (r: String)
    ensures
        r@ == lowercase_of(s@),
{
    s.to_lowercase()
}

/// A copy of a list of texts.
pub fn clone_texts(v: &Vec<String>) -> (r: Vec<String>)
    ensures
        r@ == v@,
{
    let mut out: Vec<String> = Vec::new();
    let mut i: usize = 0;
    while i < v.len()
        invariant
            i <= v.len(),
            out@ == v@.take(i as int),
        decreases v.len() - i,
    {
        out.push(v[i].clone());
        i = i + 1;
        assert(out@ =~= v@.take(i as int));
    }
    assert(v@.take(i as int) =~= v@);
    out
}

/// A copy of a text that may be missing.
pub fn clone_opt_text(o: &Option<String>) -> (r: Option<String>)
    ensures
        r == *o,
{
    match o {
        Some(s) => Some(s.clone()),
        None => None,
    }
}

/// The characters of a text that may be missing.
pub open spec fn opt_view(o: Option<String>) -> Option<Seq<char>> {
    match o {
        Some(s) => Some(s@),
        None => None,
    }
}

/// `s` with each run of `from`, found from the left and not overlapping,
/// replaced by `to`, for a pattern `from` that is not empty.
pub open spec fn replaced(s: Seq<char>, from: Seq<char>, to: Seq<char>) -> Seq<char>
    decreases s.len(),
{
    if from.len() == 0 || s.len() < from.len() {
        s
    } else if occurs_at(s, from, 0) {
        to + replaced(s.subrange(from.len() as int, s.len() as int), from, to)
    } else {
        seq![s[0]] + replaced(s.drop_first(), from, to)
    }
}

/// Replaces each run of a pattern that is not empty, found from the left,
/// with another text.
pub(crate) fn replace_text(s: &str, from: &str, to: &str) -> (r: String)
    requires
        from@.len() > 0,
    ensures
        r@ == replaced(s@, from@, to@),
{
    let t = to_chars(s);
    let p = to_chars(from);
    let w = to_chars(to);
    let mut out: Vec<char> = Vec::new();
    let mut i: usize = 0;
    assert(t@.subrange(0, t.len() as int) =~= s@);
    assert(out@ + replaced(s@, from@, to@) =~= replaced(s@, from@, to@));
    while i < t.len()
        invariant
            i <= t.len(),
            t@ == s@,
            p@ == from@,
            w@ == to@,
            p@.len() > 0,
            out@ + replaced(t@.subrange(i as int, t.len() as int), p@, w@) == replaced(
                s@,
                from@,
                to@,
            ),
        decreases t.len() - i,
    {
        let ghost rest = t@.subrange(i as int, t.len() as int);
        let ghost before = out@;
        if occurs_at_exec(&t, &p, i) {
            let mut k: usize = 0;
            while k < w.len()
                invariant
                    k <= w.len(),
                    out@ == before + w@.take(k as int),
                decreases w.len() - k,
            {
                out.push(w[k]);
                assert(out@ =~= before + w@.take(k + 1));
                k = k + 1;
            }
            proof {
                assert(w@.take(w.len() as int) =~= w@);
                assert(rest.subrange(0, p.len() as int) =~= t@.subrange(
                    i as int,
                    i + p.len(),
                ));
                assert(occurs_at(rest, p@, 0));
                assert(rest.subrange(p.len() as int, rest.len() as int) =~= t@.subrange(
                    i + p.len(),
                    t.len() as int,
                ));
                assert(out@ + replaced(t@.subrange(i + p.len(), t.len() as int), p@, w@)
                    =~= before + replaced(rest, p@, w@));
            }
            i = i + p.len();
        } else {
            out.push(t[i]);
            proof {
                assert(rest.drop_first() =~= t@.subrange(i + 1, t.len() as int));
                if rest.len() >= p.len() {
                    assert(rest.subrange(0, p.len() as int) =~= t@.subrange(
                        i as int,
                        i + p.len(),
                    ));
                    assert(!occurs_at(rest, p@, 0));
                } else {
                    assert(replaced(rest.drop_first(), p@, w@) == rest.drop_first());
                    assert(rest =~= seq![rest[0]] + rest.drop_first());
                }
                assert(replaced(rest, p@, w@) == seq![rest[0]] + replaced(
                    rest.drop_first(),
                    p@,
                    w@,
                ));
                assert(out@ + replaced(t@.subrange(i + 1, t.len() as int), p@, w@) =~= before
                    + replaced(rest, p@, w@));
            }
            i = i + 1;
        }
    }
    assert(replaced(t@.subrange(i as int, t.len() as int), p@, w@) =~= Seq::<char>::empty());
    assert(out@ + Seq::<char>::empty() =~= out@);
    text_of(&out)
}

/// Whether `pat` stands somewhere in `s`.
pub fn str_contains(s: &str, pat: &str) -> (r: bool)
    ensures
        r == has_sub(s@, pat@),
{
    let a = to_chars(s);
    let b = to_chars(pat);
    contains_text(&a, &b)
}

/// The two texts, one after the other.
pub fn join2(a: &str, b: &str) -> (r: String)
    ensures
        r@ == a@ + b@,
{
    let s = a.to_owned();
    s.concat(b)
}

/// The decimal digit of a number below ten.
pub open spec fn digit_char(d: nat) -> char {
    (('0' as u8) + (d as u8)) as char
}

/// The decimal text of a number.
pub open spec fn decimal_of(n: nat) -> Seq<char>
    decreases n,
{
    if n < 10 {
        seq![digit_char(n)]
    } else {
        decimal_of(n / 10).push(digit_char(n % 10))
    }
}

/// The decimal text of a number.
pub fn decimal_text(n: usize) -> (r: String)
    ensures
        r@ == decimal_of(n as nat),
    decreases n,
{
    let d: u8 = (n % 10) as u8;
    let c: char = (('0' as u8) + d) as char;
    if n < 10 {
        let mut s = String::new();
        push_char(&mut s, c);
        assert(s@ =~= seq![digit_char(n as nat)]);
        s
    } else {
        let mut s = decimal_text(n / 10);
        push_char(&mut s, c);
        s
    }
}

/// The hexadecimal digit of a number below sixteen, in lower case.
pub open spec fn hex_char(d: nat) -> char {
    if d < 10 {
        digit_char(d)
    } else {
        (('a' as u8) + ((d - 10) as u8)) as char
    }
}

/// The hexadecimal text of a number, in lower case and without leading
/// zeros.
pub open spec fn hex_of(n: nat) -> Seq<char>
    decreases n,
{
    if n < 16 {
        seq![hex_char(n)]
    } else {
        hex_of(n / 16).push(hex_char(n % 16))
    }
}

/// The hexadecimal text of a number.
pub fn hex_text(n: u64) -> (r: String)
    ensures
        r@ == hex_of(n as nat),
    decreases n,
{
    let d: u8 = (n % 16) as u8;
    let c: char = if d < 10 {
        (('0' as u8) + d) as char
    } else {
        (('a' as u8) + (d - 10)) as char
    };
    if n < 16 {
        let mut s = String::new();
        push_char(&mut s, c);
        assert(s@ =~= seq![hex_char(n as nat)]);
        s
    } else {
        let mut s = hex_text(n / 16);
        push_char(&mut s, c);
        s
    }
}

/// The parts of a text between the separators.
pub open spec fn split_on(s: Seq<char>, sep: char) -> Seq<Seq<char>>
    decreases s.len(),
{
    let p = first_at(s, seq![sep], 0);
    if p < 0 || p >= s.len() {
        seq![s]
    } else {
        seq![s.subrange(0, p)] + split_on(s.subrange(p + 1, s.len() as int), sep)
    }
}

/// The parts of a text between the dots.
pub open spec fn split_dots(s: Seq<char>) -> Seq<Seq<char>> {
    split_on(s, '.')
}

/// The parts of the text `v[from..]` between the separators.
pub fn split_chars(v: &Vec<char>, from: usize, sep: char) -> (r: Vec<String>)
    requires
        from <= v.len(),
    ensures
        crate::strmap::names_of(r@) == split_on(v@.subrange(from as int, v@.len() as int), sep),
        r@.len() >= 1,
{
    let mut out: Vec<String> = Vec::new();
    let mut begin: usize = from;
    let mut i: usize = from;
    let ghost whole = split_on(v@.subrange(from as int, v@.len() as int), sep);
    assert(crate::strmap::names_of(out@) + whole =~= whole);
    while i < v.len()
        invariant
            from <= begin <= i <= v.len(),
            crate::strmap::names_of(out@) + split_on(
                v@.subrange(begin as int, v@.len() as int),
                sep,
            ) == whole,
            forall|j: int| begin <= j < i ==> v@[j] != sep,
        decreases v.len() - i,
    {
        if v[i] == sep {
            let ghost s = v@.subrange(begin as int, v@.len() as int);
            let ghost before = crate::strmap::names_of(out@);
            proof {
                lemma_first_at_is(s, sep, i - begin);
                assert(s.subrange(0, i - begin) =~= v@.subrange(begin as int, i as int));
                assert(s.subrange(i - begin + 1, s.len() as int) =~= v@.subrange(
                    i + 1,
                    v@.len() as int,
                ));
            }
            let piece = slice_text(v, begin, i);
            out.push(piece);
            proof {
                assert(crate::strmap::names_of(out@) =~= before + seq![piece@]);
                assert(before + (seq![piece@] + split_on(
                    v@.subrange(i + 1, v@.len() as int),
                    sep,
                )) =~= (before + seq![piece@]) + split_on(
                    v@.subrange(i + 1, v@.len() as int),
                    sep,
                ));
            }
            begin = i + 1;
        }
        i = i + 1;
    }
    let ghost s = v@.subrange(begin as int, v@.len() as int);
    let ghost before = crate::strmap::names_of(out@);
    proof {
        lemma_first_at_none(s, sep);
    }
    let piece = slice_text(v, begin, v.len());
    out.push(piece);
    assert(crate::strmap::names_of(out@) =~= before + seq![s]);
    out
}

/// A position that holds the character, and before which no position
/// holds it, is the first position of the character.
pub proof fn lemma_first_at_is(s: Seq<char>, c: char, p: int)
    requires
        0 <= p < s.len(),
        s[p] == c,
        forall|j: int| 0 <= j < p ==> s[j] != c,
    ensures
        first_at(s, seq![c], 0) == p,
{
    lemma_first_at(s, seq![c], 0);
    assert(s.subrange(p, p + 1) =~= seq![c]);
    assert(occurs_at(s, seq![c], p));
    let q = first_at(s, seq![c], 0);
    if q < p {
        assert(occurs_at(s, seq![c], q));
        assert(s.subrange(q, q + 1)[0] == c);
    }
}

/// A text that holds the character nowhere has no first position of it.
pub proof fn lemma_first_at_none(s: Seq<char>, c: char)
    requires
        forall|j: int| 0 <= j < s.len() ==> s[j] != c,
    ensures
        first_at(s, seq![c], 0) >= s.len(),
{
    lemma_first_at(s, seq![c], 0);
    let q = first_at(s, seq![c], 0);
    if q < s.len() {
        assert(occurs_at(s, seq![c], q));
        assert(s.subrange(q, q + 1)[0] == c);
    }
}

/// The parts of the text `v[from..]` between the dots.
pub fn split_at_dots(v: &Vec<char>, from: usize) -> (r: Vec<String>)
    requires
        from <= v.len(),
    ensures
        crate::strmap::names_of(r@) == split_dots(v@.subrange(from as int, v@.len() as int)),
        r@.len() >= 1,
{
    split_chars(v, from, '.')
}

/// Whether a character is a letter or a digit of any script.
pub uninterp spec fn is_alphanumeric(c: char) -> bool;

/// `char::is_alphanumeric`: whether a character is a letter or a digit.
#[verifier::external_body]
pub(crate) fn alphanumeric(c: char) -> (r: bool)
    ensures
        r == is_alphanumeric(c),
{
    c.is_alphanumeric()
}

/// The characters of `v` from `from` up to `to`.
pub fn sub_chars(v: &Vec<char>, from: usize, to: usize) -> (r: Vec<char>)
    requires
        from <= to <= v.len(),
    ensures
        r@ == v@.subrange(from as int, to as int),
{
    let mut out: Vec<char> = Vec::new();
    let mut i: usize = from;
    while i < to
        invariant
            from <= i <= to <= v.len(),
            out@ == v@.subrange(from as int, i as int),
        decreases to - i,
    {
        out.push(v[i]);
        i = i + 1;
        assert(out@ =~= v@.subrange(from as int, i as int));
    }
    out
}

/// The text `v[from..to]` without its leading and trailing white space.
pub fn trimmed_slice(v: &Vec<char>, from: usize, to: usize) -> (r: String)
    requires
        from <= to <= v.len(),
    ensures
        r@ == trimmed(v@.subrange(from as int, to as int)),
{
    let (a, b) = trim_bounds(v, from, to);
    slice_text(v, a, b)
}

/// The decimal text of a number that may be negative.
pub open spec fn signed_decimal_of(n: int) -> Seq<char> {
    if n < 0 {
        seq!['-'] + decimal_of((-n) as nat)
    } else {
        decimal_of(n as nat)
    }
}

/// The decimal text of a number that may be negative.
pub fn signed_decimal_text(n: i32) -> (r: String)
    ensures
        r@ == signed_decimal_of(n as int),
{
    if n < 0 {
        let m: i64 = -(n as i64);
        let digits = decimal_text(m as usize);
        let mut s = String::new();
        push_char(&mut s, '-');
        let r = s.concat(digits.as_str());
        assert(r@ =~= seq!['-'] + decimal_of((-(n as int)) as nat));
        r
    } else {
        decimal_text(n as usize)
    }
}

} // verus!
