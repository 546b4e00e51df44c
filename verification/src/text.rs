//! Strings: comparing them, writing numbers, and reading the tables that the
//! kernel prints.

use vstd::prelude::*;

verus! {

/// Whether two strings hold the same characters.
pub fn same_text(a: &str, b: &str) -> (r: bool)
    ensures
        r == (a@ == b@),
{
    let a = String::from_str(a);
    let b = String::from_str(b);
    a == b
}

/// A copy of an optional string.
pub fn copy_text(s: &Option<String>) -> (r: Option<String>)
    ensures
        r == *s,
{
    match s {
        Some(s) => Some(s.clone()),
        None => None,
    }
}

/// The decimal digit for a number below ten.
pub open spec fn digit(d: int) -> Seq<char> {
    if d == 0 {
        "0"@
    } else if d == 1 {
        "1"@
    } else if d == 2 {
        "2"@
    } else if d == 3 {
        "3"@
    } else if d == 4 {
        "4"@
    } else if d == 5 {
        "5"@
    } else if d == 6 {
        "6"@
    } else if d == 7 {
        "7"@
    } else if d == 8 {
        "8"@
    } else {
        "9"@
    }
}

/// A natural number in decimal digits, without leading zeros.
pub open spec fn digits(n: nat) -> Seq<char>
    decreases n,
{
    if n < 10 {
        digit(n as int)
    } else {
        digits(n / 10) + digit(n as int % 10)
    }
}

/// An integer in decimal digits, with a minus sign before a negative one.
pub open spec fn decimal(n: int) -> Seq<char> {
    if n < 0 {
        "-"@ + digits((-n) as nat)
    } else {
        digits(n as nat)
    }
}

/// Appends a natural number in decimal digits.
fn push_digits(text: &mut String, n: u64)
    ensures
        final(text)@ == old(text)@ + digits(n as nat),
    decreases n,
{
    if n >= 10 {
        push_digits(text, n / 10);
    }
    let d: u64 = n % 10;
    let last = if d == 0 {
        "0"
    } else if d == 1 {
        "1"
    } else if d == 2 {
        "2"
    } else if d == 3 {
        "3"
    } else if d == 4 {
        "4"
    } else if d == 5 {
        "5"
    } else if d == 6 {
        "6"
    } else if d == 7 {
        "7"
    } else if d == 8 {
        "8"
    } else {
        "9"
    };
    text.append(last);
    assert(text@ =~= old(text)@ + digits(n as nat));
}

/// Appends an integer in decimal digits.
pub fn push_decimal(text: &mut String, n: i32)
    ensures
        final(text)@ == old(text)@ + decimal(n as int),
{
    if n < 0 {
        text.append("-");
        let wide: i64 = n as i64;
        push_digits(text, (-wide) as u64);
        assert(text@ =~= old(text)@ + decimal(n as int));
    } else {
        push_digits(text, n as u64);
    }
}

/// Whether `c` parts the pieces of a text: a line feed parts lines, a blank
/// or a tab parts the words of a line.
pub open spec fn separates(words: bool, c: char) -> bool {
    if words {
        c == ' ' || c == '\t'
    } else {
        c == '\n'
    }
}

/// The pieces of `s` that a separator has ended, and the piece that is still open.
pub open spec fn scan(s: Seq<char>, words: bool) -> (Seq<Seq<char>>, Seq<char>)
    decreases s.len(),
{
    if s.len() == 0 {
        (Seq::empty(), Seq::empty())
    } else {
        let (done, open) = scan(s.drop_last(), words);
        if separates(words, s.last()) {
            if open.len() > 0 {
                (done.push(open), Seq::empty())
            } else {
                (done, Seq::empty())
            }
        } else {
            (done, open.push(s.last()))
        }
    }
}

/// The pieces of `s` between separators, empty pieces left out.
pub open spec fn split(s: Seq<char>, words: bool) -> Seq<Seq<char>> {
    let (done, open) = scan(s, words);
    if open.len() > 0 {
        done.push(open)
    } else {
        done
    }
}

/// The lines of `s` that are not empty.
pub open spec fn lines_of(s: Seq<char>) -> Seq<Seq<char>> {
    split(s, false)
}

/// The words of `s`: what stands between blanks and tabs.
pub open spec fn words_of(s: Seq<char>) -> Seq<Seq<char>> {
    split(s, true)
}

/// The character that four characters of a kernel table stand for, where they
/// are one of its escapes: a backslash and the octal code of a blank, a tab, a
/// line feed, a hash or a backslash.
pub open spec fn escape_at(s: Seq<char>, i: int) -> Option<Seq<char>> {
    if i + 4 <= s.len() && s[i] == '\\' {
        if s[i + 1] == '0' && s[i + 2] == '4' && s[i + 3] == '0' {
            Some(" "@)
        } else if s[i + 1] == '0' && s[i + 2] == '1' && s[i + 3] == '1' {
            Some("\t"@)
        } else if s[i + 1] == '0' && s[i + 2] == '1' && s[i + 3] == '2' {
            Some("\n"@)
        } else if s[i + 1] == '0' && s[i + 2] == '4' && s[i + 3] == '3' {
            Some("#"@)
        } else if s[i + 1] == '1' && s[i + 2] == '3' && s[i + 3] == '4' {
            Some("\\"@)
        } else {
            None
        }
    } else {
        None
    }
}

/// The text of `s` from `i` on, with the characters for its escapes.
pub open spec fn unescaped_from(s: Seq<char>, i: int) -> Seq<char>
    decreases s.len() - i,
{
    if i < 0 || i >= s.len() {
        Seq::empty()
    } else {
        match escape_at(s, i) {
            Some(c) => c + unescaped_from(s, i + 4),
            None => seq![s[i]] + unescaped_from(s, i + 1),
        }
    }
}

/// The text that a word of a kernel table stands for.
pub open spec fn unescaped(s: Seq<char>) -> Seq<char> {
    unescaped_from(s, 0)
}

/// The views of a list of strings.
pub open spec fn texts(v: Seq<String>) -> Seq<Seq<char>> {
    v.map_values(|s: String| s@)
}

/// The pieces of `s` between separators, empty pieces left out.
fn split_text(s: &str, words: bool) -> (r: Vec<String>)
    ensures
        texts(r@) == split(s@, words),
{
    let n = s.unicode_len();
    let mut done: Vec<String> = Vec::new();
    let mut start: usize = 0;
    let mut i: usize = 0;
    assert(texts(done@) =~= Seq::<Seq<char>>::empty());
    assert(s@.subrange(0, 0) =~= Seq::<char>::empty());
    assert(s@.take(0) =~= Seq::<char>::empty());
    while i < n
        invariant
            start <= i <= n,
            n == s@.len(),
            scan(s@.take(i as int), words) == (texts(done@), s@.subrange(start as int, i as int)),
        decreases n - i,
    {
        let c = s.get_char(i);
        let ghost before = done@;
        proof {
            assert(s@.take(i + 1).drop_last() =~= s@.take(i as int));
            assert(s@.take(i + 1).last() == s@[i as int]);
        }
        let parts = if words {
            c == ' ' || c == '\t'
        } else {
            c == '\n'
        };
        if parts {
            if start < i {
                done.push(String::from_str(s.substring_char(start, i)));
                assert(texts(done@) =~= texts(before).push(s@.subrange(start as int, i as int)));
            }
            start = i + 1;
            assert(s@.subrange(start as int, i + 1) =~= Seq::<char>::empty());
        } else {
            assert(s@.subrange(start as int, i + 1) =~= s@.subrange(
                start as int,
                i as int,
            ).push(s@[i as int]));
        }
        i += 1;
    }
    assert(s@.take(n as int) =~= s@);
    if start < n {
        let ghost before = done@;
        done.push(String::from_str(s.substring_char(start, n)));
        assert(texts(done@) =~= texts(before).push(s@.subrange(start as int, n as int)));
    }
    done
}

/// The lines of `s` that are not empty.
pub fn lines(s: &str) -> (r: Vec<String>)
    ensures
        texts(r@) == lines_of(s@),
{
    split_text(s, false)
}

/// The words of `s`: what stands between blanks and tabs.
pub fn words(s: &str) -> (r: Vec<String>)
    ensures
        texts(r@) == words_of(s@),
{
    split_text(s, true)
}

/// The text that a word of a kernel table stands for: a backslash with the
/// octal code of a blank, a tab, a line feed, a hash or a backslash stands
/// for that character, and every other character for itself.
pub fn unescape(s: &str) -> (r: String)
    ensures
        r@ == unescaped(s@),
{
    let n = s.unicode_len();
    let mut out = String::new();
    let mut i: usize = 0;
    while i < n
        invariant
            i <= n,
            n == s@.len(),
            out@ + unescaped_from(s@, i as int) == unescaped(s@),
        decreases n - i,
    {
        let ghost before = out@;
        let mut escape: Option<&str> = None;
        if n - i >= 4 && s.get_char(i) == '\\' {
            let a = s.get_char(i + 1);
            let b = s.get_char(i + 2);
            let c = s.get_char(i + 3);
            if a == '0' && b == '4' && c == '0' {
                escape = Some(" ");
            } else if a == '0' && b == '1' && c == '1' {
                escape = Some("\t");
            } else if a == '0' && b == '1' && c == '2' {
                escape = Some("\n");
            } else if a == '0' && b == '4' && c == '3' {
                escape = Some("#");
            } else if a == '1' && b == '3' && c == '4' {
                escape = Some("\\");
            }
        }
        match escape {
            Some(c) => {
                assert(escape_at(s@, i as int) == Some(c@));
                out.append(c);
                assert(out@ + unescaped_from(s@, i + 4) =~= before + (c@ + unescaped_from(
                    s@,
                    i + 4,
                )));
                i += 4;
            },
            None => {
                assert(escape_at(s@, i as int) is None);
                out.append(s.substring_char(i, i + 1));
                assert(s@.subrange(i as int, i + 1) =~= seq![s@[i as int]]);
                assert(out@ + unescaped_from(s@, i + 1) =~= before + (seq![s@[i as int]]
                    + unescaped_from(s@, i + 1)));
                i += 1;
            },
        }
    }
    assert(out@ + Seq::<char>::empty() =~= out@);
    out
}

} // verus!
