//! The status bar's word count.
//!
//! A line is dropped when blank; otherwise markdown noise is stripped by
//! the same three rewrite patterns the counting convention prescribes, and
//! what remains is split into words by the Unicode segmentation rules.
//! The line walking, trimming and summing are verified; the three pattern
//! rewrites and the segmentation itself are the regex and
//! unicode-segmentation crates' work, taken on their contracts.

use vstd::prelude::*;
use vstd::string::{StrSliceExecFns, StringExecFns};

verus! {

/// What the markup-stripping rewrite leaves of a line: the result of
/// replacing every match of the markup pattern with nothing. A function
/// of the text alone.
pub uninterp spec fn spec_strip_markup(s: Seq<char>) -> Seq<char>;

/// What the space-squashing rewrite leaves: every whitespace run replaced
/// by one space. A function of the text alone.
pub uninterp spec fn spec_squash_spaces(s: Seq<char>) -> Seq<char>;

/// What the link-folding rewrite leaves: every `](...)` link target
/// replaced by `]`. A function of the text alone.
pub uninterp spec fn spec_fold_links(s: Seq<char>) -> Seq<char>;

/// The words Unicode segmentation finds in a text. A function of the text
/// alone.
pub uninterp spec fn spec_unicode_words(s: Seq<char>) -> Seq<Seq<char>>;

/// Relies on regex's `Regex::replace_all`, over the fixed markup pattern
/// with an empty replacement: the result is a function of the text alone.
#[verifier::external_body]
fn strip_markup(s: &str) -> (r: String)
    ensures
        r@ == spec_strip_markup(s@),
{
    let re = regex::Regex::new(
        "(?x)\n      (< ([^>]+)<)\n      -\n      ^\\s\\s*\n      -\n      \\s\\s*$\n      ",
    ).unwrap();
    re.replace_all(s, "").into_owned()
}

/// Relies on regex's `Regex::replace_all`, over the fixed whitespace-run
/// pattern with a single-space replacement.
#[verifier::external_body]
fn squash_spaces(s: &str) -> (r: String)
    ensures
        r@ == spec_squash_spaces(s@),
{
    let re = regex::Regex::new("\\s+").unwrap();
    re.replace_all(s, " ").into_owned()
}

/// Relies on regex's `Regex::replace_all`, over the fixed link pattern
/// `](...)` with a `]` replacement.
#[verifier::external_body]
fn fold_links(s: &str) -> (r: String)
    ensures
        r@ == spec_fold_links(s@),
{
    let re = regex::Regex::new("\\]\\((.*?)\\)").unwrap();
    re.replace_all(s, "]").into_owned()
}

/// Relies on unicode-segmentation's `UnicodeSegmentation::unicode_words`:
/// the words found in the text, a function of the text alone.
#[verifier::external_body]
fn count_unicode_words(s: &str) -> (r: usize)
    ensures
        r == spec_unicode_words(s@).len(),
{
    unicode_segmentation::UnicodeSegmentation::unicode_words(s).count()
}

/// Whether a character is line blank space for trimming.
pub open spec fn spec_is_space(c: char) -> bool {
    c == ' ' || c == '\t' || c == '\r'
}

/// A line without its leading blanks.
pub open spec fn spec_trim_front(s: Seq<char>) -> Seq<char>
    decreases s.len(),
{
    if s.len() > 0 && spec_is_space(s[0]) {
        spec_trim_front(s.drop_first())
    } else {
        s
    }
}

/// A line without its trailing blanks.
pub open spec fn spec_trim_back(s: Seq<char>) -> Seq<char>
    decreases s.len(),
{
    if s.len() > 0 && spec_is_space(s[s.len() - 1]) {
        spec_trim_back(s.take(s.len() - 1))
    } else {
        s
    }
}

/// A line without its surrounding blanks.
pub open spec fn spec_trim_line(s: Seq<char>) -> Seq<char> {
    spec_trim_front(spec_trim_back(s))
}

/// Count of leading characters before the first line break.
pub open spec fn spec_line_len(s: Seq<char>) -> int
    decreases s.len(),
{
    if s.len() > 0 && s[0] != '\n' {
        1 + spec_line_len(s.drop_first())
    } else {
        0
    }
}

/// The words one line contributes: none when it is blank after trimming,
/// otherwise the words segmentation finds after the three rewrites.
pub open spec fn spec_line_words(line: Seq<char>) -> int {
    let t = spec_trim_line(line);
    if t.len() == 0 {
        0
    } else {
        spec_unicode_words(spec_fold_links(spec_squash_spaces(spec_strip_markup(t)))).len() as int
    }
}

/// The words a whole text contributes, line by line.
pub open spec fn spec_word_count(s: Seq<char>) -> int
    decreases s.len(),
{
    let k = spec_line_len(s);
    if !(0 <= k <= s.len()) {
        0
    } else {
        let c = spec_line_words(s.take(k));
        if k == s.len() {
            c
        } else {
            c + spec_word_count(s.skip(k + 1))
        }
    }
}

/// Word counts are never negative.
proof fn lemma_word_count_nonneg(s: Seq<char>)
    ensures
        spec_word_count(s) >= 0,
    decreases s.len(),
{
    let k = spec_line_len(s);
    if 0 <= k && k < s.len() {
        lemma_word_count_nonneg(s.skip(k + 1));
    }
}

/// Count of non-break characters starting at `i`.
fn scan_line(s: &str, i: usize, n: usize) -> (r: usize)
    requires
        i <= n,
        n == s@.len(),
    ensures
        i <= r <= n,
        r - i == spec_line_len(s@.skip(i as int)),
    decreases n - i,
{
    if i < n && s.get_char(i) != '\n' {
        let r = scan_line(s, i + 1, n);
        proof {
            assert(s@.skip(i as int)[0] == s@[i as int]);
            assert(s@.skip(i as int).drop_first() =~= s@.skip(i as int + 1));
        }
        r
    } else {
        proof {
            if i < n {
                assert(s@.skip(i as int)[0] == s@[i as int]);
            }
        }
        i
    }
}

/// The number of words in the text, line by line: blank lines count
/// nothing; a counting sum beyond the machine's range saturates.
pub fn count(content: &String) -> (r: usize)
    ensures
        r == (if spec_word_count(content@) <= usize::MAX {
            spec_word_count(content@)
        } else {
            usize::MAX as int
        }),
{
    let s = content.as_str();
    let n = s.unicode_len();
    let mut acc: usize = 0;
    let ghost mut partial: int = 0;
    let mut i: usize = 0;
    proof {
        assert(content@.skip(0) =~= content@);
    }
    loop
        invariant
            i <= n + 1,
            n == content@.len(),
            s@ == content@,
            partial >= 0,
            acc == (if partial <= usize::MAX {
                partial
            } else {
                usize::MAX as int
            }),
            i <= n ==> spec_word_count(content@) == partial + spec_word_count(
                content@.skip(i as int),
            ),
            i == n + 1 ==> spec_word_count(content@) == partial,
        decreases n + 1 - i,
    {
        if i > n {
            proof {
                lemma_word_count_nonneg(content@);
            }
            return acc;
        }
        if i == n {
            proof {
                assert(content@.skip(i as int).len() == 0);
                assert(spec_line_len(content@.skip(i as int)) == 0);
                assert(content@.skip(i as int).take(0) =~= Seq::<char>::empty());
                assert(spec_trim_back(Seq::<char>::empty()) =~= Seq::<char>::empty());
                assert(spec_word_count(content@.skip(i as int)) == 0);
                lemma_word_count_nonneg(content@);
            }
            return acc;
        }
        let k = scan_line(s, i, n);
        let ghost suffix = content@.skip(i as int);
        let ghost line = suffix.take((k - i) as int);
        proof {
            assert(line =~= content@.subrange(i as int, k as int));
        }
        // trim the line in place
        let mut lo: usize = i;
        let mut hi: usize = k;
        while hi > lo && (s.get_char(hi - 1) == ' ' || s.get_char(hi - 1) == '\t' || s.get_char(
            hi - 1,
        ) == '\r')
            invariant
                i <= lo <= hi <= k <= n,
                n == s@.len(),
                s@ == content@,
                lo == i,
                spec_trim_back(line) == spec_trim_back(content@.subrange(i as int, hi as int)),
                line == content@.subrange(i as int, k as int),
            decreases hi,
        {
            proof {
                assert(content@.subrange(i as int, hi as int).take(hi - 1 - i) =~= content@.subrange(
                    i as int,
                    hi as int - 1,
                ));
            }
            hi = hi - 1;
        }
        proof {
            assert(spec_trim_back(line) == content@.subrange(i as int, hi as int));
        }
        while lo < hi && (s.get_char(lo) == ' ' || s.get_char(lo) == '\t' || s.get_char(lo)
            == '\r')
            invariant
                i <= lo <= hi <= k <= n,
                n == s@.len(),
                s@ == content@,
                spec_trim_front(spec_trim_back(line)) == spec_trim_front(
                    content@.subrange(lo as int, hi as int),
                ),
            decreases hi - lo,
        {
            proof {
                assert(content@.subrange(lo as int, hi as int).drop_first() =~= content@.subrange(
                    lo as int + 1,
                    hi as int,
                ));
            }
            lo = lo + 1;
        }
        proof {
            if lo < hi {
                assert(content@.subrange(lo as int, hi as int)[0] == content@[lo as int]);
            }
            assert(spec_trim_line(line) == content@.subrange(lo as int, hi as int));
        }
        let ghost words: int = spec_line_words(line);
        if lo < hi {
            let piece = s.substring_char(lo, hi);
            let c1 = strip_markup(piece);
            let c2 = squash_spaces(c1.as_str());
            let c3 = fold_links(c2.as_str());
            let w = count_unicode_words(c3.as_str());
            proof {
                assert(piece@ =~= spec_trim_line(line));
                assert(w == words);
            }
            if w > usize::MAX - acc {
                acc = usize::MAX;
            } else {
                acc = acc + w;
            }
        } else {
            proof {
                assert(spec_trim_line(line).len() == 0);
                assert(words == 0);
            }
        }
        proof {
            partial = partial + words;
            assert(words >= 0);
            assert(spec_line_len(suffix) == k - i);
            assert(spec_word_count(suffix) == (if k == n {
                spec_line_words(line)
            } else {
                spec_line_words(line) + spec_word_count(suffix.skip((k - i) as int + 1))
            }));
            if k < n {
                assert(suffix.skip((k - i) as int + 1) =~= content@.skip(k as int + 1));
            } else {
                lemma_word_count_nonneg(content@);
            }
        }
        if k >= n {
            return acc;
        }
        i = k + 1;
    }
}

} // verus!
