//! Text handling: splitting a file's contents into lines, joining names into
//! a file's contents, and comparing strings with fixed words.

use vstd::prelude::*;
use vstd::std_specs::iter::IteratorSpec;
use vstd::string::StringExecFns;

verus! {

broadcast use vstd::string::group_string_axioms;

/// The index of the first line feed in `s`, or `s.len()` where it has none.
pub open spec fn first_newline(s: Seq<char>) -> int
    decreases s.len(),
{
    if s.len() == 0 || s[0] == '\n' {
        0
    } else {
        1 + first_newline(s.drop_first())
    }
}

/// `line` without one trailing carriage return.
pub open spec fn strip_cr(line: Seq<char>) -> Seq<char> {
    if line.len() > 0 && line.last() == '\r' {
        line.drop_last()
    } else {
        line
    }
}

/// The lines of a text. A line ends at a line feed, which is not part of
/// it, nor is a carriage return directly before that line feed. What follows
/// the last line feed is a line too, unless it is empty.
pub open spec fn text_lines(s: Seq<char>) -> Seq<Seq<char>>
    decreases s.len(),
{
    let k = first_newline(s);
    if s.len() == 0 {
        seq![]
    } else if 0 <= k < s.len() {
        seq![strip_cr(s.take(k))] + text_lines(s.skip(k + 1))
    } else {
        seq![s]
    }
}

/// `first_newline` is within the text, nothing before it is a line feed,
/// and it is one unless it is the text's end.
pub proof fn lemma_first_newline(s: Seq<char>)
    ensures
        0 <= first_newline(s) <= s.len(),
        forall|j: int| 0 <= j < first_newline(s) ==> s[j] != '\n',
        first_newline(s) < s.len() ==> s[first_newline(s)] == '\n',
    decreases s.len(),
{
    if s.len() == 0 || s[0] == '\n' {
    } else {
        let t = s.drop_first();
        lemma_first_newline(t);
        assert forall|j: int| 0 <= j < first_newline(s) implies s[j] != '\n' by {
            if j > 0 {
                assert(s[j] == t[j - 1]);
            }
        }
        assert(first_newline(s) < s.len() ==> s[first_newline(s)] == t[first_newline(t)]);
    }
}

/// An index with no line feed before it, which is the text's end or a line
/// feed, is `first_newline`.
pub proof fn lemma_first_newline_is(s: Seq<char>, k: int)
    requires
        0 <= k <= s.len(),
        forall|j: int| 0 <= j < k ==> s[j] != '\n',
        k < s.len() ==> s[k] == '\n',
    ensures
        first_newline(s) == k,
{
    lemma_first_newline(s);
    let f = first_newline(s);
    if f < k {
        assert(s[f] == '\n');
    } else if k < f {
        assert(s[k] == '\n');
    }
}

/// Calls `String::push`, which appends one character.
#[verifier::external_body]
pub(crate) fn push_char(s: &mut String, c: char)
    ensures
        final(s)@ == old(s)@.push(c),
{
    s.push(c)
}

/// The views of a vector of strings.
pub open spec fn views(v: Seq<String>) -> Seq<Seq<char>> {
    v.map_values(|s: String| s@)
}

/// Splits a text into its lines.
pub fn split_lines(text: &str) -> (lines: Vec<String>)
    ensures
        views(lines@) == text_lines(text@),
{
    let mut lines: Vec<String> = Vec::new();
    let mut line = String::new();
    let mut held_cr = false;
    let mut open = false;
    let mut chars = text.chars();
    let ghost s = text@;
    let ghost start: int = 0;
    let ghost pos: int = 0;
    proof {
        assert(s.skip(0) == s);
        assert(views(lines@) =~= Seq::<Seq<char>>::empty());
    }
    loop
        invariant_except_break
            0 <= start <= pos <= s.len(),
            chars.remaining() == s.skip(pos),
            chars.decrease() is Some,
            open == (start < pos),
            forall|j: int| start <= j < pos ==> s[j] != '\n',
            s.subrange(start, pos) == if held_cr { line@.push('\r') } else { line@ },
            !held_cr && line@.len() > 0 ==> line@.last() != '\r',
            text_lines(s) == views(lines@) + text_lines(s.skip(start)),
        invariant
            s == text@,
        ensures
            views(lines@) == text_lines(text@),
        decreases s.len() - pos,
    {
        let ghost before = chars;
        let next = chars.next();
        proof {
            vstd::string::next_postcondition(&before, &chars, next);
        }
        match next {
            None => {
                proof {
                    assert(pos == s.len());
                    let rest = s.skip(start);
                    if start < pos {
                        lemma_first_newline_is(rest, rest.len() as int);
                        assert(text_lines(rest) == seq![rest]);
                        assert(rest == s.subrange(start, pos));
                    } else {
                        assert(text_lines(rest) == Seq::<Seq<char>>::empty());
                    }
                }
                if open {
                    if held_cr {
                        push_char(&mut line, '\r');
                    }
                    let ghost done = lines@;
                    lines.push(line);
                    proof {
                        assert(views(lines@) =~= views(done) + seq![s.skip(start)]);
                    }
                } else {
                    proof {
                        assert(views(lines@) + Seq::<Seq<char>>::empty() == views(lines@));
                    }
                }
                break ;
            },
            Some(c) => {
                proof {
                    assert(s.skip(pos)[0] == s[pos]);
                    assert(s.skip(pos).drop_first() == s.skip(pos + 1));
                    assert(s.subrange(start, pos + 1) == s.subrange(start, pos).push(c));
                }
                if c == '\n' {
                    proof {
                        let rest = s.skip(start);
                        lemma_first_newline_is(rest, pos - start);
                        assert(rest.take(pos - start) == s.subrange(start, pos));
                        assert(rest.skip(pos - start + 1) == s.skip(pos + 1));
                        assert(strip_cr(s.subrange(start, pos)) == line@) by {
                            if held_cr {
                                assert(line@.push('\r').drop_last() == line@);
                            }
                        }
                        assert(text_lines(rest) == seq![line@] + text_lines(s.skip(pos + 1)));
                    }
                    let ghost done = lines@;
                    let ghost ended = line@;
                    lines.push(line);
                    proof {
                        assert(views(lines@) =~= views(done) + seq![ended]);
                        assert(text_lines(s) =~= views(lines@) + text_lines(s.skip(pos + 1)));
                        start = pos + 1;
                    }
                    line = String::new();
                    held_cr = false;
                    open = false;
                } else {
                    if held_cr {
                        push_char(&mut line, '\r');
                    }
                    if c == '\r' {
                        held_cr = true;
                    } else {
                        push_char(&mut line, c);
                        held_cr = false;
                    }
                    open = true;
                }
                proof {
                    pos = pos + 1;
                }
            },
        }
    }
    lines
}

/// The parts in order, with `sep` between each two neighbours and nothing
/// before the first or after the last.
pub open spec fn joined(parts: Seq<Seq<char>>, sep: Seq<char>) -> Seq<char>
    decreases parts.len(),
{
    if parts.len() == 0 {
        Seq::empty()
    } else if parts.len() == 1 {
        parts[0]
    } else {
        joined(parts.drop_last(), sep) + sep + parts.last()
    }
}

/// Joins the names into one text, one name per line, with no line feed
/// after the last.
pub fn join_lines(names: &Vec<String>) -> (text: String)
    ensures
        text@ == joined(views(names@), seq!['\n']),
{
    let mut text = String::new();
    let mut i: usize = 0;
    proof {
        reveal_strlit("\n");
        assert("\n"@ =~= seq!['\n']);
        assert(views(names@).take(0) =~= Seq::<Seq<char>>::empty());
    }
    while i < names.len()
        invariant
            i <= names.len(),
            "\n"@ == seq!['\n'],
            text@ == joined(views(names@).take(i as int), seq!['\n']),
        decreases names.len() - i,
    {
        if i > 0 {
            text.append("\n");
        }
        text.append(names[i].as_str());
        proof {
            let done = views(names@).take(i + 1);
            assert(done.drop_last() =~= views(names@).take(i as int));
            assert(done.last() == names@[i as int]@);
            if i == 0 {
                assert(text@ =~= done[0]);
            }
        }
        i = i + 1;
    }
    proof {
        assert(views(names@).take(names.len() as int) =~= views(names@));
    }
    text
}

/// The characters of a string.
pub fn to_chars(text: &str) -> (chars: Vec<char>)
    ensures
        chars@ == text@,
{
    let mut out: Vec<char> = Vec::new();
    let mut rest = text.chars();
    loop
        invariant_except_break
            rest.decrease() is Some,
            out@.len() <= text@.len(),
            rest.remaining() == text@.skip(out@.len() as int),
            out@ == text@.take(out@.len() as int),
        ensures
            out@ == text@,
        decreases text@.len() - out@.len(),
    {
        let ghost before = rest;
        let ghost n = out@.len() as int;
        let next = rest.next();
        proof {
            vstd::string::next_postcondition(&before, &rest, next);
        }
        match next {
            None => {
                proof {
                    assert(text@.take(n) =~= text@);
                }
                break ;
            },
            Some(c) => {
                out.push(c);
                proof {
                    assert(text@.skip(n)[0] == text@[n]);
                    assert(text@.skip(n).drop_first() =~= text@.skip(n + 1));
                    assert(text@.take(n).push(c) =~= text@.take(n + 1));
                }
            },
        }
    }
    out
}

/// Whether `text` begins with `word`.
pub fn starts_with(text: &Vec<char>, word: &Vec<char>) -> (res: bool)
    ensures
        res == word@.is_prefix_of(text@),
{
    if word.len() > text.len() {
        return false;
    }
    let mut i: usize = 0;
    while i < word.len()
        invariant
            i <= word.len() <= text.len(),
            forall|j: int| 0 <= j < i ==> word@[j] == text@[j],
        decreases word.len() - i,
    {
        if word[i] != text[i] {
            proof {
                assert(text@.subrange(0, word@.len() as int)[i as int] == text@[i as int]);
            }
            return false;
        }
        i = i + 1;
    }
    proof {
        assert(word@ =~= text@.subrange(0, word@.len() as int));
    }
    true
}

/// Whether `text` ends with `word`.
pub fn ends_with(text: &Vec<char>, word: &Vec<char>) -> (res: bool)
    ensures
        res == word@.is_suffix_of(text@),
{
    if word.len() > text.len() {
        return false;
    }
    let shift: usize = text.len() - word.len();
    let mut i: usize = 0;
    while i < word.len()
        invariant
            i <= word.len() <= text.len(),
            shift == text.len() - word.len(),
            forall|j: int| 0 <= j < i ==> word@[j] == text@[shift + j],
        decreases word.len() - i,
    {
        if word[i] != text[shift + i] {
            proof {
                assert(text@.subrange(shift as int, text@.len() as int)[i as int] == text@[shift
                    + i]);
            }
            return false;
        }
        i = i + 1;
    }
    proof {
        assert(word@ =~= text@.subrange(shift as int, text@.len() as int));
    }
    true
}

/// Whether two strings hold the same characters.
pub fn same_text(a: &str, b: &str) -> (res: bool)
    ensures
        res == (a@ == b@),
{
    let x = to_chars(a);
    let y = to_chars(b);
    let same = starts_with(&x, &y) && x.len() == y.len();
    proof {
        assert(x@.subrange(0, x@.len() as int) =~= x@);
    }
    same
}

} // verus!
