//! Character classification and whitespace-delimited word counting.

use vstd::prelude::*;
use vstd::string::*;

verus! {

/// The characters treated as whitespace: the Unicode scalar values with the
/// White_Space property (space, tab, line and paragraph separators, and the
/// other blank characters).
pub open spec fn is_ws_char(c: char) -> bool {
    ||| c == ' '
    ||| c == '\t'
    ||| c == '\n'
    ||| c == '\u{b}'
    ||| c == '\u{c}'
    ||| c == '\r'
    ||| c == '\u{85}'
    ||| c == '\u{a0}'
    ||| c == '\u{1680}'
    ||| c == '\u{2000}'
    ||| c == '\u{2001}'
    ||| c == '\u{2002}'
    ||| c == '\u{2003}'
    ||| c == '\u{2004}'
    ||| c == '\u{2005}'
    ||| c == '\u{2006}'
    ||| c == '\u{2007}'
    ||| c == '\u{2008}'
    ||| c == '\u{2009}'
    ||| c == '\u{200a}'
    ||| c == '\u{2028}'
    ||| c == '\u{2029}'
    ||| c == '\u{202f}'
    ||| c == '\u{205f}'
    ||| c == '\u{3000}'
}

/// Decides whether `c` counts as whitespace for word splitting.
pub fn is_whitespace(c: char) -> (r: bool)
    ensures
        r == is_ws_char(c),
{
    match c {
        ' ' | '\t' | '\n' | '\u{b}' | '\u{c}' | '\r' | '\u{85}' | '\u{a0}' | '\u{1680}'
        | '\u{2000}' | '\u{2001}' | '\u{2002}' | '\u{2003}' | '\u{2004}' | '\u{2005}'
        | '\u{2006}' | '\u{2007}' | '\u{2008}' | '\u{2009}' | '\u{200a}' | '\u{2028}'
        | '\u{2029}' | '\u{202f}' | '\u{205f}' | '\u{3000}' => true,
        _ => false,
    }
}

/// A maximal non-whitespace run begins at `i`: the character there is not
/// whitespace and it is either the first character or preceded by whitespace.
pub open spec fn word_starts_at(t: Seq<char>, i: int) -> bool {
    &&& 0 <= i < t.len()
    &&& !is_ws_char(t[i])
    &&& (i == 0 || is_ws_char(t[i - 1]))
}

/// Number of maximal non-whitespace runs that begin before position `n`.
pub open spec fn word_count_upto(t: Seq<char>, n: int) -> int
    decreases n,
{
    if n <= 0 {
        0
    } else {
        word_count_upto(t, n - 1) + if word_starts_at(t, n - 1) {
            1int
        } else {
            0int
        }
    }
}

/// Number of maximal non-whitespace runs in `t`: the word count of the text.
pub open spec fn word_count_of(t: Seq<char>) -> int {
    word_count_upto(t, t.len() as int)
}

/// Counts the whitespace-delimited words of `text`.
pub fn count_words(text: &str) -> (n: usize)
    ensures
        n == word_count_of(text@),
{
    let len = text.unicode_len();
    let mut count: usize = 0;
    let mut prev_ws = true;
    let mut i: usize = 0;
    while i < len
        invariant
            len == text@.len(),
            i <= len,
            count == word_count_upto(text@, i as int),
            count <= i,
            prev_ws == (i == 0 || is_ws_char(text@[i as int - 1])),
        decreases len - i,
    {
        let c = text.get_char(i);
        let ws = is_whitespace(c);
        if !ws && prev_ws {
            count = count + 1;
        }
        prev_ws = ws;
        i = i + 1;
    }
    count
}

} // verus!
