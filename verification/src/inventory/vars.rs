//! The variables that a host line of an inventory sets: `key=value` pairs
//! after the host, separated by spaces, with values that may be quoted.

use vstd::prelude::*;
use crate::strmap::pairs_of;
use crate::text::{
    find_from, first_at, is_space, is_space_exec, lemma_first_at, slice_text, sub_chars, to_chars,
    trim_bounds, trimmed,
};

verus! {

/// Pairs of a name and a value.
pub type TextPairs = Seq<(Seq<char>, Seq<char>)>;

/// A value without the quotes around it, where it stands between two
/// single or two double quotes.
pub open spec fn unquoted(v: Seq<char>) -> Seq<char> {
    if v.len() >= 2 && ((v[0] == '\'' && v.last() == '\'') || (v[0] == '"' && v.last() == '"')) {
        v.subrange(1, v.len() - 1)
    } else {
        v
    }
}

/// Where the reading of the variables of a line stands.
pub struct Scan {
    /// Where the name or the value under way begins.
    pub start: int,
    /// Whether a quote is open.
    pub in_quote: bool,
    /// The quote that is open, or was open last.
    pub quote: char,
    /// The name whose value is under way; empty while a name is read.
    pub name: Seq<char>,
}

/// The state in which the reading of a line begins.
pub open spec fn scan_start() -> Scan {
    Scan { start: 0, in_quote: false, quote: ' ', name: Seq::empty() }
}

/// The pairs that the reading gives from position `k` on, and whether it
/// ends with no name under way.
///
/// An equals sign ends the name. A space outside quotes ends the value, and
/// so does the last character of the line where it is a plain one. A quote
/// opens, and the same quote closes.
pub open spec fn scan_from(s: Seq<char>, k: int, st: Scan) -> (TextPairs, bool)
    decreases s.len() - k,
{
    if k < 0 || k >= s.len() || st.start > k || st.start < 0 {
        (Seq::empty(), st.name.len() == 0)
    } else {
        let c = s[k];
        let last = k == s.len() - 1 && (c as u32) < 128;
        if c == '=' && st.name.len() == 0 {
            scan_from(
                s,
                k + 1,
                Scan { name: trimmed(s.subrange(st.start, k)), start: k + 1, ..st },
            )
        } else if (c == ' ' || last) && !st.in_quote && st.name.len() > 0 {
            let end = if last {
                k + 1
            } else {
                k
            };
            let rest = scan_from(s, k + 1, Scan { name: Seq::empty(), start: k + 1, ..st });
            (seq![(st.name, unquoted(trimmed(s.subrange(st.start, end))))] + rest.0, rest.1)
        } else if (c == '\'' || c == '"') && (!st.in_quote || c == st.quote) {
            scan_from(
                s,
                k + 1,
                Scan {
                    in_quote: !st.in_quote,
                    quote: if st.in_quote {
                        st.quote
                    } else {
                        c
                    },
                    ..st
                },
            )
        } else {
            scan_from(s, k + 1, st)
        }
    }
}

/// The first position at or after `k` that holds white space.
pub open spec fn word_end(s: Seq<char>, k: int) -> int
    decreases s.len() - k,
{
    if 0 <= k < s.len() && !is_space(s[k]) {
        word_end(s, k + 1)
    } else {
        k
    }
}

/// The pair that a word gives: what stands before its first equals sign,
/// and what stands after it, without quotes around it.
pub open spec fn word_pair(w: Seq<char>) -> Option<(Seq<char>, Seq<char>)> {
    let p = first_at(w, seq!['='], 0);
    if 0 <= p < w.len() {
        Some((trimmed(w.subrange(0, p)), unquoted(trimmed(w.subrange(p + 1, w.len() as int)))))
    } else {
        None
    }
}

/// The pairs that the words from position `k` on give, a word being a run
/// without white space.
pub open spec fn words_from(s: Seq<char>, k: int) -> TextPairs
    decreases s.len() - k,
{
    if k < 0 || k >= s.len() {
        Seq::empty()
    } else if is_space(s[k]) {
        words_from(s, k + 1)
    } else {
        let e = word_end(s, k);
        if e <= k || e > s.len() {
            Seq::empty()
        } else {
            match word_pair(s.subrange(k, e)) {
                Some(p) => seq![p] + words_from(s, e),
                None => words_from(s, e),
            }
        }
    }
}

/// The variables that the rest of a host line sets, in the order in which
/// they are set: those of the reading with quotes and, where that ends with
/// no name under way, those of the words once more.
pub open spec fn line_vars(s: Seq<char>) -> TextPairs {
    let scanned = scan_from(s, 0, scan_start());
    if scanned.1 {
        scanned.0 + words_from(s, 0)
    } else {
        scanned.0
    }
}

/// The text `v[a..b]` without the quotes around it.
fn unquote(v: &Vec<char>, a: usize, b: usize) -> (r: String)
    requires
        a <= b <= v.len(),
    ensures
        r@ == unquoted(v@.subrange(a as int, b as int)),
{
    let ghost w = v@.subrange(a as int, b as int);
    if b - a >= 2 && ((v[a] == '\'' && v[b - 1] == '\'') || (v[a] == '"' && v[b - 1] == '"')) {
        proof {
            assert(w[0] == v@[a as int]);
            assert(w.last() == v@[b - 1]);
            assert(w.subrange(1, w.len() - 1) =~= v@.subrange(a + 1, b - 1));
        }
        slice_text(v, a + 1, b - 1)
    } else {
        proof {
            if b - a >= 2 {
                assert(w[0] == v@[a as int]);
                assert(w.last() == v@[b - 1]);
            }
        }
        slice_text(v, a, b)
    }
}

/// The pair that the word `v[from..to]` gives.
fn pair_of_word(v: &Vec<char>, from: usize, to: usize) -> (r: Option<(String, String)>)
    requires
        from <= to <= v.len(),
    ensures
        match r {
            Some(p) => word_pair(v@.subrange(from as int, to as int)) == Some((p.0@, p.1@)),
            None => word_pair(v@.subrange(from as int, to as int)) is None,
        },
{
    let w = sub_chars(v, from, to);
    let mut eq: Vec<char> = Vec::new();
    eq.push('=');
    assert(eq@ =~= seq!['=']);
    proof {
        lemma_first_at(w@, seq!['='], 0);
    }
    match find_from(&w, &eq, 0) {
        Some(p) => {
            if p < w.len() {
                let (a, b) = trim_bounds(&w, 0, p);
                let name = slice_text(&w, a, b);
                let (c, d) = trim_bounds(&w, p + 1, w.len());
                let value = unquote(&w, c, d);
                Some((name, value))
            } else {
                None
            }
        },
        None => None,
    }
}

/// The variables that the rest of a host line sets, in order.
pub fn parse_line_vars(rest: &str) -> (r: Vec<(String, String)>)
    ensures
        pairs_of(r@) == line_vars(rest@),
{
    let s = to_chars(rest);
    let mut out: Vec<(String, String)> = Vec::new();
    let mut start: usize = 0;
    let mut in_quote = false;
    let mut quote: char = ' ';
    let mut name = String::new();
    let ghost whole = scan_from(s@, 0, scan_start());
    let mut k: usize = 0;
    assert(pairs_of(out@) + whole.0 =~= whole.0);
    while k < s.len()
        invariant
            k <= s.len(),
            start <= k,
            s@ == rest@,
            whole == scan_from(s@, 0, scan_start()),
            pairs_of(out@) + scan_from(
                s@,
                k as int,
                Scan { start: start as int, in_quote, quote, name: name@ },
            ).0 == whole.0,
            scan_from(s@, k as int, Scan { start: start as int, in_quote, quote, name: name@ }).1
                == whole.1,
        decreases s.len() - k,
    {
        let c = s[k];
        let last = k == s.len() - 1 && (c as u32) < 128;
        let ghost before = pairs_of(out@);
        if c == '=' && name.as_str().is_empty() {
            let (a, b) = trim_bounds(&s, start, k);
            name = slice_text(&s, a, b);
            start = k + 1;
        } else if (c == ' ' || last) && !in_quote && !name.as_str().is_empty() {
            let end = if last {
                k + 1
            } else {
                k
            };
            let (a, b) = trim_bounds(&s, start, end);
            let value = unquote(&s, a, b);
            let ghost pair = (name@, value@);
            out.push((name, value));
            name = String::new();
            start = k + 1;
            proof {
                assert(pairs_of(out@) =~= before + seq![pair]);
                let rest_scan = scan_from(
                    s@,
                    k + 1,
                    Scan { start: k + 1, in_quote, quote, name: Seq::empty() },
                );
                assert(before + (seq![pair] + rest_scan.0) =~= (before + seq![pair])
                    + rest_scan.0);
            }
        } else if (c == '\'' || c == '"') && (!in_quote || c == quote) {
            if !in_quote {
                quote = c;
            }
            in_quote = !in_quote;
        }
        k = k + 1;
    }
    assert(pairs_of(out@) =~= whole.0);
    if !name.as_str().is_empty() {
        return out;
    }
    let ghost scanned = pairs_of(out@);
    let mut i: usize = 0;
    assert(pairs_of(out@) + words_from(s@, 0) =~= scanned + words_from(s@, 0));
    while i < s.len()
        invariant
            i <= s.len(),
            s@ == rest@,
            pairs_of(out@) + words_from(s@, i as int) == scanned + words_from(s@, 0),
        decreases s.len() - i,
    {
        if is_space_exec(s[i]) {
            i = i + 1;
        } else {
            let mut e: usize = i;
            while e < s.len() && !is_space_exec(s[e])
                invariant
                    i <= e <= s.len(),
                    word_end(s@, i as int) == word_end(s@, e as int),
                decreases s.len() - e,
            {
                e = e + 1;
            }
            let ghost before = pairs_of(out@);
            match pair_of_word(&s, i, e) {
                Some(p) => {
                    let ghost pair = (p.0@, p.1@);
                    out.push(p);
                    proof {
                        assert(pairs_of(out@) =~= before + seq![pair]);
                        assert(before + (seq![pair] + words_from(s@, e as int)) =~= (before
                            + seq![pair]) + words_from(s@, e as int));
                    }
                },
                None => {},
            }
            i = e;
        }
    }
    assert(pairs_of(out@) + words_from(s@, i as int) =~= pairs_of(out@));
    out
}

} // verus!
