//! Keeping a line in the text of a file, or out of it.

use vstd::prelude::*;
use crate::strmap::names_of;
use crate::text::{join2, opt_view, same_text};

verus! {

/// Whether a text is a pattern that the regular expressions accept.
pub uninterp spec fn is_pattern(pattern: Seq<char>) -> bool;

/// Whether a pattern that is accepted matches somewhere in a text.
pub uninterp spec fn pattern_matches(pattern: Seq<char>, text: Seq<char>) -> bool;

/// The lines of a text, without their line endings.
pub uninterp spec fn lines_of(text: Seq<char>) -> Seq<Seq<char>>;

/// `regex::Regex::new`, then `is_match`: whether the pattern matches
/// somewhere in the text, or nothing where the pattern is refused.
#[verifier::external_body]
fn matches_pattern(pattern: &str, text: &str) -> (r: Option<bool>)
    ensures
        match r {
            Some(b) => is_pattern(pattern@) && b == pattern_matches(pattern@, text@),
            None => !is_pattern(pattern@),
        },
{
    match regex::Regex::new(pattern) {
        Ok(re) => Some(re.is_match(text)),
        Err(_) => None,
    }
}

/// `str::lines`: the lines of a text, each as a text of its own.
#[verifier::external_body]
fn text_lines(text: &str) -> (r: Vec<String>)
    ensures
        names_of(r@) == lines_of(text@),
{
    text.lines().map(|s| s.to_string()).collect()
}

/// Why a line could not be kept in a text, or out of it.
#[derive(Debug, Clone, Copy, PartialEq, Eq, Structural)]
pub enum LineFault {
    /// A line is to be kept and none is given.
    MissingLine,
    /// The pattern that finds the line is refused.
    InvalidRegexp,
    /// The pattern after which the line goes is refused.
    InvalidInsertAfter,
    /// The pattern before which the line goes is refused.
    InvalidInsertBefore,
    /// A line is to be kept out, and neither a line nor a pattern is given.
    NothingToRemove,
    /// The state is neither "present" nor "absent".
    InvalidState,
}

/// The first position at or after `from` whose line the pattern matches, or
/// the number of lines where it matches none.
pub open spec fn first_match(lines: Seq<Seq<char>>, pattern: Seq<char>, from: int) -> int
    decreases lines.len() - from,
{
    if from < 0 || from >= lines.len() {
        lines.len() as int
    } else if pattern_matches(pattern, lines[from]) {
        from
    } else {
        first_match(lines, pattern, from + 1)
    }
}

/// The lines with a new line put in. After the pattern "EOF", or with no
/// pattern at all, it goes to the end; before the pattern "BOF", to the
/// beginning. Else it goes behind the first line that the pattern to go
/// after matches, or in front of the first line that the pattern to go
/// before matches, and to the end where there is no such line. The pattern
/// to go after counts before the other.
pub open spec fn inserted(
    lines: Seq<Seq<char>>,
    line: Seq<char>,
    insertafter: Option<Seq<char>>,
    insertbefore: Option<Seq<char>>,
) -> Result<Seq<Seq<char>>, LineFault> {
    match insertafter {
        Some(p) => if p == "EOF"@ {
            Ok(lines.push(line))
        } else if !is_pattern(p) {
            Err(LineFault::InvalidInsertAfter)
        } else if first_match(lines, p, 0) < lines.len() {
            Ok(lines.insert(first_match(lines, p, 0) + 1, line))
        } else {
            Ok(lines.push(line))
        },
        None => match insertbefore {
            Some(p) => if p == "BOF"@ {
                Ok(lines.insert(0, line))
            } else if !is_pattern(p) {
                Err(LineFault::InvalidInsertBefore)
            } else {
                Ok(lines.insert(first_match(lines, p, 0), line))
            },
            None => Ok(lines.push(line)),
        },
    }
}

/// The first `n` lines without those that are the given line.
pub open spec fn without_line(lines: Seq<Seq<char>>, line: Seq<char>, n: nat) -> Seq<Seq<char>>
    decreases n,
{
    if n == 0 || n > lines.len() {
        Seq::empty()
    } else if lines[n - 1] == line {
        without_line(lines, line, (n - 1) as nat)
    } else {
        without_line(lines, line, (n - 1) as nat).push(lines[n - 1])
    }
}

/// The first `n` lines without those that the pattern matches.
pub open spec fn without_matches(lines: Seq<Seq<char>>, pattern: Seq<char>, n: nat) -> Seq<
    Seq<char>,
>
    decreases n,
{
    if n == 0 || n > lines.len() {
        Seq::empty()
    } else if pattern_matches(pattern, lines[n - 1]) {
        without_matches(lines, pattern, (n - 1) as nat)
    } else {
        without_matches(lines, pattern, (n - 1) as nat).push(lines[n - 1])
    }
}

/// The lines after the line was seen to, and whether anything changed.
///
/// To keep a line in: with a pattern, the first line that it matches
/// becomes the line; where it matches none, the line is put in. Without a
/// pattern, the line is put in unless it is there already. To keep a line
/// out: with a pattern, every line that it matches goes; else every line
/// that is the given line.
pub open spec fn modified(
    lines: Seq<Seq<char>>,
    line: Option<Seq<char>>,
    regexp: Option<Seq<char>>,
    state: Seq<char>,
    insertafter: Option<Seq<char>>,
    insertbefore: Option<Seq<char>>,
) -> Result<(Seq<Seq<char>>, bool), LineFault> {
    if state == "present"@ {
        match line {
            None => Err(LineFault::MissingLine),
            Some(l) => {
                let put = match inserted(lines, l, insertafter, insertbefore) {
                    Ok(after) => Ok((after, true)),
                    Err(f) => Err(f),
                };
                match regexp {
                    Some(p) => if !is_pattern(p) {
                        Err(LineFault::InvalidRegexp)
                    } else if first_match(lines, p, 0) < lines.len() {
                        Ok(
                            (
                                lines.update(first_match(lines, p, 0), l),
                                lines[first_match(lines, p, 0)] != l,
                            ),
                        )
                    } else {
                        put
                    },
                    None => if lines.contains(l) {
                        Ok((lines, false))
                    } else {
                        put
                    },
                }
            },
        }
    } else if state == "absent"@ {
        match regexp {
            Some(p) => if !is_pattern(p) {
                Err(LineFault::InvalidRegexp)
            } else {
                Ok(
                    (
                        without_matches(lines, p, lines.len()),
                        without_matches(lines, p, lines.len()).len() != lines.len(),
                    ),
                )
            },
            None => match line {
                Some(l) => Ok(
                    (
                        without_line(lines, l, lines.len()),
                        without_line(lines, l, lines.len()).len() != lines.len(),
                    ),
                ),
                None => Err(LineFault::NothingToRemove),
            },
        }
    } else {
        Err(LineFault::InvalidState)
    }
}

/// The first `n` lines, with a line feed between one and the next.
pub open spec fn joined(lines: Seq<Seq<char>>, n: nat) -> Seq<char>
    decreases n,
{
    if n == 0 || n > lines.len() {
        Seq::empty()
    } else if n == 1 {
        lines[0]
    } else {
        joined(lines, (n - 1) as nat) + "\n"@ + lines[n - 1]
    }
}

/// The text of the lines: a line feed between one and the next, and one at
/// the end unless the text is empty or ends in one.
pub open spec fn finished(lines: Seq<Seq<char>>) -> Seq<char> {
    let t = joined(lines, lines.len());
    if t.len() > 0 && t.last() != '\n' {
        t + "\n"@
    } else {
        t
    }
}

/// The text of the lines.
pub fn finish_lines(lines: &Vec<String>) -> (r: String)
    ensures
        r@ == finished(names_of(lines@)),
{
    let mut out = String::new();
    let ghost all = names_of(lines@);
    let mut i: usize = 0;
    assert(out@ =~= joined(all, 0));
    while i < lines.len()
        invariant
            i <= lines.len(),
            all == names_of(lines@),
            out@ == joined(all, i as nat),
        decreases lines.len() - i,
    {
        if i > 0 {
            out = join2(out.as_str(), "\n");
        }
        out = join2(out.as_str(), lines[i].as_str());
        assert(out@ =~= joined(all, (i + 1) as nat));
        i = i + 1;
    }
    let chars = crate::text::to_chars(out.as_str());
    proof {
        reveal_strlit("\n");
    }
    if chars.len() > 0 && chars[chars.len() - 1] != '\n' {
        join2(out.as_str(), "\n")
    } else {
        out
    }
}

/// The first position whose line the pattern matches.
fn find_match(lines: &Vec<String>, pattern: &str) -> (r: usize)
    requires
        is_pattern(pattern@),
    ensures
        r == first_match(names_of(lines@), pattern@, 0),
        r <= lines@.len(),
{
    let ghost all = names_of(lines@);
    let mut i: usize = 0;
    while i < lines.len()
        invariant
            i <= lines.len(),
            all == names_of(lines@),
            is_pattern(pattern@),
            first_match(all, pattern@, 0) == first_match(all, pattern@, i as int),
        decreases lines.len() - i,
    {
        let hit = match matches_pattern(pattern, lines[i].as_str()) {
            Some(b) => b,
            None => false,
        };
        assert(all[i as int] == lines@[i as int]@);
        if hit {
            return i;
        }
        i = i + 1;
    }
    i
}

/// Puts a new line among the lines.
pub fn insert_line(
    lines: &mut Vec<String>,
    line_to_add: &str,
    insertafter: &Option<String>,
    insertbefore: &Option<String>,
) -> (r: Result<(), LineFault>)
    ensures
        match inserted(
            names_of(old(lines)@),
            line_to_add@,
            opt_view(*insertafter),
            opt_view(*insertbefore),
        ) {
            Ok(after) => r is Ok && names_of(final(lines)@) == after,
            Err(f) => r == Err::<(), LineFault>(f) && final(lines)@ == old(lines)@,
        },
{
    let ghost before = names_of(lines@);
    let at: usize = match insertafter {
        Some(p) => {
            if same_text(p.as_str(), "EOF") {
                lines.len()
            } else {
                match matches_pattern(p.as_str(), "") {
                    None => {
                        return Err(LineFault::InvalidInsertAfter);
                    },
                    Some(_) => {},
                }
                let k = find_match(lines, p.as_str());
                if k < lines.len() {
                    k + 1
                } else {
                    lines.len()
                }
            }
        },
        None => match insertbefore {
            Some(p) => {
                if same_text(p.as_str(), "BOF") {
                    0
                } else {
                    match matches_pattern(p.as_str(), "") {
                        None => {
                            return Err(LineFault::InvalidInsertBefore);
                        },
                        Some(_) => {},
                    }
                    find_match(lines, p.as_str())
                }
            },
            None => lines.len(),
        },
    };
    lines.insert(at, line_to_add.to_owned());
    proof {
        assert(names_of(lines@) =~= before.insert(at as int, line_to_add@));
        assert(before.insert(before.len() as int, line_to_add@) =~= before.push(line_to_add@));
    }
    Ok(())
}

/// Whether the line is among the lines.
fn has_line(lines: &Vec<String>, line: &str) -> (r: bool)
    ensures
        r == names_of(lines@).contains(line@),
{
    let ghost all = names_of(lines@);
    let mut i: usize = 0;
    while i < lines.len()
        invariant
            i <= lines.len(),
            all == names_of(lines@),
            forall|j: int| 0 <= j < i ==> all[j] != line@,
        decreases lines.len() - i,
    {
        if same_text(lines[i].as_str(), line) {
            assert(all[i as int] == line@);
            return true;
        }
        i = i + 1;
    }
    false
}

/// The lines without those that are the given line, or without those that
/// the pattern matches.
fn remove_lines(lines: &Vec<String>, line: &str, pattern: Option<&str>) -> (r: Vec<String>)
    requires
        pattern is Some ==> is_pattern(pattern.unwrap()@),
    ensures
        names_of(r@) == match pattern {
            Some(p) => without_matches(names_of(lines@), p@, lines@.len() as nat),
            None => without_line(names_of(lines@), line@, lines@.len() as nat),
        },
{
    let ghost all = names_of(lines@);
    let mut out: Vec<String> = Vec::new();
    let mut i: usize = 0;
    assert(names_of(out@) =~= Seq::<Seq<char>>::empty());
    while i < lines.len()
        invariant
            i <= lines.len(),
            all == names_of(lines@),
            pattern is Some ==> is_pattern(pattern.unwrap()@),
            names_of(out@) == match pattern {
                Some(p) => without_matches(all, p@, i as nat),
                None => without_line(all, line@, i as nat),
            },
        decreases lines.len() - i,
    {
        let ghost kept = names_of(out@);
        assert(all[i as int] == lines@[i as int]@);
        let goes = match pattern {
            Some(p) => match matches_pattern(p, lines[i].as_str()) {
                Some(b) => b,
                None => false,
            },
            None => same_text(lines[i].as_str(), line),
        };
        if !goes {
            out.push(lines[i].clone());
            assert(names_of(out@) =~= kept.push(all[i as int]));
        }
        i = i + 1;
    }
    out
}

/// Sees to one line of the text of a file, and says whether the text
/// changed. On a failure the text stays as it was.
pub fn process_line_modifications(
    content: &mut String,
    line: Option<String>,
    regexp: Option<String>,
    state: &str,
    insertafter: Option<String>,
    insertbefore: Option<String>,
) -> (r: Result<bool, LineFault>)
    ensures
        match modified(
            lines_of(old(content)@),
            opt_view(line),
            opt_view(regexp),
            state@,
            opt_view(insertafter),
            opt_view(insertbefore),
        ) {
            Ok(after) => r == Ok::<bool, LineFault>(after.1) && final(content)@ == finished(
                after.0,
            ),
            Err(f) => r == Err::<bool, LineFault>(f) && final(content)@ == old(content)@,
        },
{
    let mut lines = text_lines(content.as_str());
    let ghost before = names_of(lines@);
    let mut changed = false;
    if same_text(state, "present") {
        let line_to_add = match &line {
            Some(l) => l,
            None => {
                return Err(LineFault::MissingLine);
            },
        };
        let found = match &regexp {
            Some(p) => {
                match matches_pattern(p.as_str(), "") {
                    None => {
                        return Err(LineFault::InvalidRegexp);
                    },
                    Some(_) => {},
                }
                let k = find_match(&lines, p.as_str());
                if k < lines.len() {
                    if !same_text(lines[k].as_str(), line_to_add.as_str()) {
                        lines.set(k, line_to_add.clone());
                        changed = true;
                    }
                    assert(names_of(lines@) =~= before.update(k as int, line_to_add@));
                    true
                } else {
                    false
                }
            },
            None => has_line(&lines, line_to_add.as_str()),
        };
        if !found {
            match insert_line(&mut lines, line_to_add.as_str(), &insertafter, &insertbefore) {
                Ok(_) => {},
                Err(f) => {
                    return Err(f);
                },
            }
            changed = true;
        }
    } else if same_text(state, "absent") {
        let kept = match &regexp {
            Some(p) => {
                match matches_pattern(p.as_str(), "") {
                    None => {
                        return Err(LineFault::InvalidRegexp);
                    },
                    Some(_) => {},
                }
                remove_lines(&lines, "", Some(p.as_str()))
            },
            None => match &line {
                Some(l) => remove_lines(&lines, l.as_str(), None),
                None => {
                    return Err(LineFault::NothingToRemove);
                },
            },
        };
        changed = kept.len() != lines.len();
        lines = kept;
    } else {
        return Err(LineFault::InvalidState);
    }
    *content = finish_lines(&lines);
    Ok(changed)
}

} // verus!
