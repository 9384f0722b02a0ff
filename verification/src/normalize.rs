//! Line Normalizer: strips trailing line comments (`//...`) and all
//! whitespace from one raw source line. Comment-only and blank lines
//! normalize to the empty string; callers filter those out.
use crate::text::{chars_to_string, str_to_chars};
use vstd::prelude::*;

verus! {

/// Whitespace characters removed by normalization.
pub open spec fn is_blank(c: char) -> bool {
    c == ' ' || c == '\t' || c == '\r' || c == '\n' || c == '\u{b}' || c == '\u{c}'
}

/// A line comment begins at position `j` of `s`.
pub open spec fn is_comment_at(s: Seq<char>, j: int) -> bool {
    0 <= j && j + 1 < s.len() && s[j] == '/' && s[j + 1] == '/'
}

/// The position where the line's trailing comment begins, or the line's
/// length when it has no comment.
pub open spec fn comment_start(s: Seq<char>) -> int
    decreases s.len(),
{
    if s.len() < 2 {
        s.len() as int
    } else if s[0] == '/' && s[1] == '/' {
        0
    } else {
        1 + comment_start(s.skip(1))
    }
}

/// `comment_start` is the first position where a comment begins.
pub proof fn lemma_comment_start(s: Seq<char>)
    ensures
        0 <= comment_start(s) <= s.len(),
        comment_start(s) < s.len() ==> is_comment_at(s, comment_start(s)),
        forall|j: int| 0 <= j < comment_start(s) ==> !is_comment_at(s, j),
    decreases s.len(),
{
    if s.len() < 2 {
    } else if s[0] == '/' && s[1] == '/' {
    } else {
        lemma_comment_start(s.skip(1));
        let cs = comment_start(s);
        assert forall|j: int| 0 <= j < cs implies !is_comment_at(s, j) by {
            if j > 0 {
                assert(!is_comment_at(s.skip(1), j - 1));
            }
        }
    }
}

/// The first `n` characters of `s` with whitespace removed.
pub open spec fn strip_blanks_prefix(s: Seq<char>, n: int) -> Seq<char>
    decreases n,
{
    if n <= 0 {
        Seq::empty()
    } else if is_blank(s[n - 1]) {
        strip_blanks_prefix(s, n - 1)
    } else {
        strip_blanks_prefix(s, n - 1).push(s[n - 1])
    }
}

/// What normalization returns: the part of the line before any comment,
/// with all whitespace removed.
pub open spec fn spec_normalize(s: Seq<char>) -> Seq<char> {
    strip_blanks_prefix(s, comment_start(s))
}

/// Strips the trailing line comment and all whitespace from one raw line.
pub fn normalize_line(line: &str) -> (r: String)
    ensures
        r@ == spec_normalize(line@),
{
    let chars = str_to_chars(line);
    let n = chars.len();
    proof {
        lemma_comment_start(line@);
    }
    // Find where the comment (if any) begins.
    let ghost cs = comment_start(line@);
    let mut end: usize = n;
    let mut i: usize = 0;
    while i < n && end == n
        invariant
            i <= n,
            n == line@.len(),
            chars@ == line@,
            end == n || end == cs,
            end == n ==> forall|j: int| 0 <= j < i ==> !is_comment_at(line@, j),
            0 <= cs <= n,
            cs < n ==> is_comment_at(line@, cs),
            forall|j: int| 0 <= j < cs ==> !is_comment_at(line@, j),
        decreases n - i,
    {
        if i + 1 < n && chars[i] == '/' && chars[i + 1] == '/' {
            proof {
                assert(is_comment_at(line@, i as int));
                if (i as int) < cs {
                    assert(!is_comment_at(line@, i as int));
                }
                if cs < i as int {
                    assert(is_comment_at(line@, cs));
                    assert(!is_comment_at(line@, cs));
                }
            }
            end = i;
        }
        i = i + 1;
    }
    proof {
        assert(end == cs);
    }
    // Copy the non-blank characters before the comment.
    let mut out: Vec<char> = Vec::new();
    let mut k: usize = 0;
    while k < end
        invariant
            k <= end,
            end <= n,
            n == line@.len(),
            chars@ == line@,
            out@ == strip_blanks_prefix(line@, k as int),
        decreases end - k,
    {
        let c = chars[k];
        if !(c == ' ' || c == '\t' || c == '\r' || c == '\n' || c == '\u{b}' || c == '\u{c}') {
            out.push(c);
        }
        k = k + 1;
    }
    chars_to_string(&out)
}

} // verus!
