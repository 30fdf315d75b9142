//! Character-level text operations on lines of a configuration file: trimming,
//! splitting on a separator, searching and the parsing of booleans and integers, each
//! stated over sequences of characters and computed over a line's characters.

use vstd::prelude::*;

verus! {

/// The sets of characters that lines are trimmed of.
#[derive(Clone, Copy, PartialEq, Eq, Structural)]
pub enum TrimSet {
    /// Unicode white space, as `char::is_whitespace` has it.
    Whitespace,
    /// `[`, `]`, a space and `"`: what surrounds a list.
    ListDelimiters,
    /// `"` alone.
    DoubleQuote,
    /// `"`, `'` and `\`: what may surround a path.
    PathQuotes,
}

/// Whether `c` is white space: the characters with the Unicode `White_Space` property.
pub open spec fn is_white_space(c: char) -> bool {
    ||| '\t' <= c <= '\r'
    ||| c == ' '
    ||| c == '\u{85}'
    ||| c == '\u{a0}'
    ||| c == '\u{1680}'
    ||| '\u{2000}' <= c <= '\u{200a}'
    ||| c == '\u{2028}'
    ||| c == '\u{2029}'
    ||| c == '\u{202f}'
    ||| c == '\u{205f}'
    ||| c == '\u{3000}'
}

/// Whether `c` belongs to the set `set`.
pub open spec fn in_set(set: TrimSet, c: char) -> bool {
    match set {
        TrimSet::Whitespace => is_white_space(c),
        TrimSet::ListDelimiters => c == '[' || c == ']' || c == ' ' || c == '"',
        TrimSet::DoubleQuote => c == '"',
        TrimSet::PathQuotes => c == '"' || c == '\'' || c == '\\',
    }
}

/// `s` without the characters of `set` that start it.
pub open spec fn trim_start(s: Seq<char>, set: TrimSet) -> Seq<char>
    decreases s.len(),
{
    if s.len() > 0 && in_set(set, s[0]) {
        trim_start(s.drop_first(), set)
    } else {
        s
    }
}

/// `s` without the characters of `set` that end it.
pub open spec fn trim_end(s: Seq<char>, set: TrimSet) -> Seq<char>
    decreases s.len(),
{
    if s.len() > 0 && in_set(set, s.last()) {
        trim_end(s.drop_last(), set)
    } else {
        s
    }
}

/// `s` without the characters of `set` at either end, as `str::trim_matches` (and
/// `str::trim`, for white space) leaves it.
pub open spec fn trimmed(s: Seq<char>, set: TrimSet) -> Seq<char> {
    trim_end(trim_start(s, set), set)
}

/// The pieces of `s` between the occurrences of `sep`, as `str::split` yields them:
/// one piece more than there are separators, empty pieces included.
pub open spec fn split_on(s: Seq<char>, sep: char) -> Seq<Seq<char>>
    decreases s.len(),
{
    if s.len() == 0 {
        seq![Seq::empty()]
    } else {
        let init = split_on(s.drop_last(), sep);
        if s.last() == sep {
            init.push(Seq::empty())
        } else {
            init.update(init.len() - 1, init.last().push(s.last()))
        }
    }
}

/// Whether `pattern` occurs in `s` at index `i`.
pub open spec fn occurs_at(s: Seq<char>, pattern: Seq<char>, i: int) -> bool {
    0 <= i && i + pattern.len() <= s.len() && s.subrange(i, i + pattern.len()) == pattern
}

/// Whether `pattern` occurs in `s`.
pub open spec fn occurs(s: Seq<char>, pattern: Seq<char>) -> bool {
    exists|i: int| occurs_at(s, pattern, i)
}

/// The value of a boolean's text, as `bool::from_str` reads it: exactly `true` or
/// `false`.
pub open spec fn parse_bool(s: Seq<char>) -> Option<bool> {
    if s == seq!['t', 'r', 'u', 'e'] {
        Some(true)
    } else if s == seq!['f', 'a', 'l', 's', 'e'] {
        Some(false)
    } else {
        None
    }
}

/// Whether `c` is an ASCII decimal digit.
pub open spec fn is_digit(c: char) -> bool {
    '0' <= c <= '9'
}

/// Whether every character of `s` is an ASCII decimal digit.
pub open spec fn all_digits(s: Seq<char>) -> bool {
    forall|i: int| 0 <= i < s.len() ==> is_digit(#[trigger] s[i])
}

/// The value of a string of decimal digits.
pub open spec fn digits_value(s: Seq<char>) -> nat
    decreases s.len(),
{
    if s.len() == 0 {
        0
    } else {
        digits_value(s.drop_last()) * 10 + ((s.last() as nat) - ('0' as nat)) as nat
    }
}

/// The value of an integer's text, as `i32::from_str` reads it: an optional `+` or
/// `-`, then one or more ASCII digits, of a value within the range of `i32`.
pub open spec fn parse_i32(s: Seq<char>) -> Option<i32> {
    let signed = s.len() > 0 && (s[0] == '+' || s[0] == '-');
    let negative = s.len() > 0 && s[0] == '-';
    let digits = if signed { s.drop_first() } else { s };
    if digits.len() == 0 || !all_digits(digits) {
        None
    } else {
        let value: int = if negative { -(digits_value(digits) as int) } else { digits_value(digits) as int };
        if i32::MIN <= value <= i32::MAX {
            Some(value as i32)
        } else {
            None
        }
    }
}

/// The text that `str::to_lowercase` makes of `s`.
pub uninterp spec fn lowercase(s: Seq<char>) -> Seq<char>;

/// The words of `s`: its maximal runs of characters other than white space, as
/// `str::split_whitespace` yields them.
pub open spec fn words(s: Seq<char>) -> Seq<Seq<char>>
    decreases s.len(),
{
    if s.len() == 0 {
        Seq::empty()
    } else {
        let init = words(s.drop_last());
        let c = s.last();
        if is_white_space(c) {
            init
        } else if s.len() >= 2 && !is_white_space(s[s.len() - 2]) {
            init.update(init.len() - 1, init.last().push(c))
        } else {
            init.push(seq![c])
        }
    }
}

/// The value of an unsigned integer's text, as `usize::from_str` reads it: an
/// optional `+`, then one or more ASCII digits, of a value that fits in `usize`.
pub open spec fn parse_usize(s: Seq<char>) -> Option<usize> {
    let digits = if s.len() > 0 && s[0] == '+' { s.drop_first() } else { s };
    if digits.len() == 0 || !all_digits(digits) || digits_value(digits) > usize::MAX {
        None
    } else {
        Some(digits_value(digits) as usize)
    }
}

// ------------------------------------------------------------------------------------------------

/// Calls `str::to_lowercase` (std). Claimed: the result is named by `lowercase`.
#[verifier::external_body]
pub(crate) fn to_lowercase(s: &str) -> (lower: String)
    ensures
        lower@ == lowercase(s@),
{
    s.to_lowercase()
}

/// The characters of `s`, in order.
pub fn chars_of(s: &str) -> (chars: Vec<char>)
    ensures
        chars@ == s@,
{
    let n = s.unicode_len();
    let mut chars: Vec<char> = Vec::new();
    let mut i: usize = 0;
    while i < n
        invariant
            n == s@.len(),
            0 <= i <= n,
            chars@ == s@.take(i as int),
        decreases n - i,
    {
        chars.push(s.get_char(i));
        i += 1;
        assert(chars@ =~= s@.take(i as int));
    }
    assert(s@.take(n as int) =~= s@);
    chars
}

/// Whether `c` belongs to the set `set`.
pub fn is_in_set(set: TrimSet, c: char) -> (r: bool)
    ensures
        r == in_set(set, c),
{
    match set {
        TrimSet::Whitespace => {
            ('\t' <= c && c <= '\r') || c == ' ' || c == '\u{85}' || c == '\u{a0}' || c == '\u{1680}'
                || ('\u{2000}' <= c && c <= '\u{200a}') || c == '\u{2028}' || c == '\u{2029}'
                || c == '\u{202f}' || c == '\u{205f}' || c == '\u{3000}'
        },
        TrimSet::ListDelimiters => c == '[' || c == ']' || c == ' ' || c == '"',
        TrimSet::DoubleQuote => c == '"',
        TrimSet::PathQuotes => c == '"' || c == '\'' || c == '\\',
    }
}

/// The bounds, within `lo..hi`, of what is left of `chars[lo..hi]` once trimmed of
/// the characters of `set`.
pub fn trim_range(chars: &Vec<char>, lo: usize, hi: usize, set: TrimSet) -> (r: (usize, usize))
    requires
        lo <= hi <= chars@.len(),
    ensures
        lo <= r.0 <= r.1 <= hi,
        chars@.subrange(r.0 as int, r.1 as int) == trimmed(chars@.subrange(lo as int, hi as int), set),
{
    let mut a = lo;
    while a < hi && is_in_set(set, chars[a])
        invariant
            lo <= a <= hi <= chars@.len(),
            trim_start(chars@.subrange(lo as int, hi as int), set) == trim_start(chars@.subrange(a as int, hi as int), set),
        decreases hi - a,
    {
        assert(chars@.subrange(a as int, hi as int).drop_first() =~= chars@.subrange(a + 1, hi as int));
        a += 1;
    }
    let mut b = hi;
    while b > a && is_in_set(set, chars[b - 1])
        invariant
            lo <= a <= b <= hi <= chars@.len(),
            trim_end(chars@.subrange(a as int, hi as int), set) == trim_end(chars@.subrange(a as int, b as int), set),
        decreases b - a,
    {
        assert(chars@.subrange(a as int, b as int).drop_last() =~= chars@.subrange(a as int, b - 1));
        b -= 1;
    }
    (a, b)
}

/// The bounds of the pieces of `chars[lo..hi]` between the occurrences of `sep`.
pub fn split_ranges(chars: &Vec<char>, lo: usize, hi: usize, sep: char) -> (pieces: Vec<(usize, usize)>)
    requires
        lo <= hi <= chars@.len(),
    ensures
        pieces@.len() == split_on(chars@.subrange(lo as int, hi as int), sep).len(),
        forall|k: int| 0 <= k < pieces@.len() ==> {
            &&& lo <= (#[trigger] pieces@[k]).0 <= pieces@[k].1 <= hi
            &&& chars@.subrange(pieces@[k].0 as int, pieces@[k].1 as int) == split_on(chars@.subrange(lo as int, hi as int), sep)[k]
        },
{
    let ghost s = chars@.subrange(lo as int, hi as int);
    let mut pieces: Vec<(usize, usize)> = Vec::new();
    let mut start = lo;
    let mut i = lo;
    while i < hi
        invariant
            lo <= start <= i <= hi <= chars@.len(),
            s == chars@.subrange(lo as int, hi as int),
            pieces@.len() + 1 == split_on(s.take(i - lo), sep).len(),
            forall|k: int| 0 <= k < pieces@.len() ==> {
                &&& lo <= (#[trigger] pieces@[k]).0 <= pieces@[k].1 <= i
                &&& chars@.subrange(pieces@[k].0 as int, pieces@[k].1 as int) == split_on(s.take(i - lo), sep)[k]
            },
            chars@.subrange(start as int, i as int) == split_on(s.take(i - lo), sep).last(),
        decreases hi - i,
    {
        let ghost prev = split_on(s.take(i - lo), sep);
        assert(s.take(i + 1 - lo).drop_last() =~= s.take(i - lo));
        assert(s.take(i + 1 - lo).last() == chars@[i as int]);
        if chars[i] == sep {
            pieces.push((start, i));
            start = i + 1;
            assert(chars@.subrange(start as int, (i + 1) as int) =~= Seq::<char>::empty());
        } else {
            assert(chars@.subrange(start as int, (i + 1) as int) =~= chars@.subrange(start as int, i as int).push(chars@[i as int]));
        }
        i += 1;
    }
    assert(s.take(hi - lo) =~= s);
    let ghost all = split_on(s, sep);
    pieces.push((start, hi));
    assert forall|k: int| 0 <= k < pieces@.len() implies {
        &&& lo <= (#[trigger] pieces@[k]).0 <= pieces@[k].1 <= hi
        &&& chars@.subrange(pieces@[k].0 as int, pieces@[k].1 as int) == all[k]
    } by {
        if k == pieces@.len() - 1 {
            assert(pieces@[k] == (start, hi));
        }
    }
    pieces
}

/// Whether `pattern` occurs in `chars`.
pub fn occurs_in(chars: &Vec<char>, pattern: &Vec<char>) -> (r: bool)
    ensures
        r == occurs(chars@, pattern@),
{
    let n = chars.len();
    let m = pattern.len();
    if m > n {
        assert forall|i: int| !occurs_at(chars@, pattern@, i) by {}
        return false;
    }
    let mut i: usize = 0;
    while i <= n - m
        invariant
            n == chars@.len(),
            m == pattern@.len(),
            m <= n,
            0 <= i <= n - m + 1,
            forall|j: int| 0 <= j < i ==> !occurs_at(chars@, pattern@, j),
        decreases n - i,
    {
        let mut k: usize = 0;
        let mut same = true;
        while k < m
            invariant
                n == chars@.len(),
                m == pattern@.len(),
                i + m <= n,
                0 <= k <= m,
                same == (forall|t: int| 0 <= t < k ==> chars@[i + t] == pattern@[t]),
            decreases m - k,
        {
            if chars[i + k] != pattern[k] {
                same = false;
            }
            k += 1;
        }
        if same {
            assert(chars@.subrange(i as int, i + m) =~= pattern@);
            assert(occurs_at(chars@, pattern@, i as int));
            return true;
        }
        assert(!occurs_at(chars@, pattern@, i as int)) by {
            if chars@.subrange(i as int, i + m) == pattern@ {
                assert forall|t: int| 0 <= t < m implies chars@[i + t] == pattern@[t] by {
                    assert(chars@.subrange(i as int, i + m)[t] == chars@[i + t]);
                }
            }
        }
        i += 1;
    }
    assert forall|j: int| !occurs_at(chars@, pattern@, j) by {
        if 0 <= j && j < i {
        } else if j >= i {
            assert(j + m > n);
        }
    }
    false
}

/// Whether `chars[lo..hi]` is the text `word`.
pub fn range_is(chars: &Vec<char>, lo: usize, hi: usize, word: &str) -> (r: bool)
    requires
        lo <= hi <= chars@.len(),
    ensures
        r == (chars@.subrange(lo as int, hi as int) == word@),
{
    let w = chars_of(word);
    if hi - lo != w.len() {
        return false;
    }
    let mut k: usize = 0;
    while k < w.len()
        invariant
            lo <= hi <= chars@.len(),
            hi - lo == w@.len(),
            w@ == word@,
            0 <= k <= w@.len(),
            forall|t: int| 0 <= t < k ==> chars@[lo + t] == w@[t],
        decreases w@.len() - k,
    {
        if chars[lo + k] != w[k] {
            assert(chars@.subrange(lo as int, hi as int)[k as int] != w@[k as int]);
            return false;
        }
        k += 1;
    }
    assert(chars@.subrange(lo as int, hi as int) =~= w@);
    true
}

/// The boolean that `chars[lo..hi]` is the text of, as `bool::from_str` reads it.
pub fn parse_bool_range(chars: &Vec<char>, lo: usize, hi: usize) -> (r: Option<bool>)
    requires
        lo <= hi <= chars@.len(),
    ensures
        r == parse_bool(chars@.subrange(lo as int, hi as int)),
{
    proof {
        reveal_strlit("true");
        reveal_strlit("false");
        assert("true"@ =~= seq!['t', 'r', 'u', 'e']);
        assert("false"@ =~= seq!['f', 'a', 'l', 's', 'e']);
    }
    if range_is(chars, lo, hi, "true") {
        Some(true)
    } else if range_is(chars, lo, hi, "false") {
        Some(false)
    } else {
        None
    }
}

/// A longer string of digits has at least the value of its prefix.
proof fn lemma_digits_value_prefix(s: Seq<char>, k: int)
    requires
        0 <= k <= s.len(),
        all_digits(s),
    ensures
        digits_value(s.take(k)) <= digits_value(s),
    decreases s.len() - k,
{
    if k < s.len() {
        lemma_digits_value_prefix(s, k + 1);
        assert(s.take(k + 1).drop_last() =~= s.take(k));
    } else {
        assert(s.take(k) =~= s);
    }
}

/// The integer that `chars[lo..hi]` is the text of, as `i32::from_str` reads it.
pub fn parse_i32_range(chars: &Vec<char>, lo: usize, hi: usize) -> (r: Option<i32>)
    requires
        lo <= hi <= chars@.len(),
    ensures
        r == parse_i32(chars@.subrange(lo as int, hi as int)),
{
    let ghost s = chars@.subrange(lo as int, hi as int);
    let mut start = lo;
    let mut negative = false;
    if lo < hi && (chars[lo] == '+' || chars[lo] == '-') {
        negative = chars[lo] == '-';
        start = lo + 1;
    }
    let ghost digits = chars@.subrange(start as int, hi as int);
    let ghost signed = s.len() > 0 && (s[0] == '+' || s[0] == '-');
    assert(digits =~= (if signed { s.drop_first() } else { s }));
    assert(negative == (s.len() > 0 && s[0] == '-'));
    if start == hi {
        return None;
    }
    // The value so far, given up on once it exceeds 2^31.
    let mut value: i64 = 0;
    let mut i = start;
    while i < hi
        invariant
            lo <= start <= i <= hi <= chars@.len(),
            s == chars@.subrange(lo as int, hi as int),
            digits == chars@.subrange(start as int, hi as int),
            digits == (if signed { s.drop_first() } else { s }),
            signed == (s.len() > 0 && (s[0] == '+' || s[0] == '-')),
            negative == (s.len() > 0 && s[0] == '-'),
            forall|t: int| start <= t < i ==> is_digit(#[trigger] chars@[t]),
            value == digits_value(digits.take(i - start)),
            value <= 0x8000_0000,
        decreases hi - i,
    {
        let c = chars[i];
        if !('0' <= c && c <= '9') {
            assert(!is_digit(digits[i - start]));
            return None;
        }
        assert(digits.take(i + 1 - start).drop_last() =~= digits.take(i - start));
        assert(digits.take(i + 1 - start).last() == c);
        let d = (c as u32 - '0' as u32) as i64;
        value = value * 10 + d;
        i += 1;
        if value > 0x8000_0000 {
            let mut j = i;
            while j < hi
                invariant
                    start <= i <= j <= hi <= chars@.len(),
                    s == chars@.subrange(lo as int, hi as int),
                    digits == chars@.subrange(start as int, hi as int),
                    digits == (if signed { s.drop_first() } else { s }),
                    signed == (s.len() > 0 && (s[0] == '+' || s[0] == '-')),
            signed == (s.len() > 0 && (s[0] == '+' || s[0] == '-')),
                    value == digits_value(digits.take(i - start)),
                    value > 0x8000_0000,
                    forall|t: int| start <= t < j ==> is_digit(#[trigger] chars@[t]),
                decreases hi - j,
            {
                let c2 = chars[j];
                if !('0' <= c2 && c2 <= '9') {
                    assert(!is_digit(digits[j - start]));
                    return None;
                }
                j += 1;
            }
            assert(all_digits(digits));
            proof {
                lemma_digits_value_prefix(digits, i - start);
            }
            return None;
        }
    }
    assert(digits.take(hi - start) =~= digits);
    assert(all_digits(digits));
    if negative {
        Some((0 - value) as i32)
    } else if value <= 0x7fff_ffff {
        Some(value as i32)
    } else {
        None
    }
}

/// The bounds of the words of `chars[..n]` that end before `n`, and of the word in
/// progress at `n`, if any.
pub open spec fn words_prefix_ok(chars: Seq<char>, n: int, bounds: Seq<(usize, usize)>) -> bool {
    &&& bounds.len() == words(chars.take(n)).len()
    &&& forall|k: int| 0 <= k < bounds.len() ==> {
        &&& (#[trigger] bounds[k]).0 <= bounds[k].1 <= n
        &&& chars.subrange(bounds[k].0 as int, bounds[k].1 as int) == words(chars.take(n))[k]
    }
}

/// The bounds of the words of `chars`.
pub fn word_ranges(chars: &Vec<char>) -> (bounds: Vec<(usize, usize)>)
    ensures
        words_prefix_ok(chars@, chars@.len() as int, bounds@),
{
    let n = chars.len();
    let mut bounds: Vec<(usize, usize)> = Vec::new();
    let mut i: usize = 0;
    while i < n
        invariant
            n == chars@.len(),
            0 <= i <= n,
            words_prefix_ok(chars@, i as int, bounds@),
            i > 0 && !is_white_space(chars@[i - 1]) ==> bounds@.len() > 0 && bounds@.last().1 == i,
        decreases n - i,
    {
        let ghost prev = bounds@;
        let c = chars[i];
        assert(chars@.take(i + 1).drop_last() =~= chars@.take(i as int));
        assert(chars@.take(i + 1).last() == c);
        if is_in_set(TrimSet::Whitespace, c) {
        } else if i > 0 && !is_in_set(TrimSet::Whitespace, chars[i - 1]) {
            let last = bounds.len() - 1;
            let (a, _) = bounds[last];
            bounds.set(last, (a, i + 1));
            assert(chars@.take(i + 1)[i - 1] == chars@[i - 1]);
            assert(chars@.subrange(a as int, i + 1) =~= chars@.subrange(a as int, i as int).push(c));
            assert forall|k: int| 0 <= k < bounds@.len() implies {
                &&& (#[trigger] bounds@[k]).0 <= bounds@[k].1 <= i + 1
                &&& chars@.subrange(bounds@[k].0 as int, bounds@[k].1 as int) == words(chars@.take(i + 1))[k]
            } by {
                if k < last {
                    assert(bounds@[k] == prev[k]);
                }
            }
        } else {
            bounds.push((i, i + 1));
            assert(chars@.subrange(i as int, i + 1) =~= seq![c]);
            if i > 0 {
                assert(chars@.take(i + 1)[i - 1] == chars@[i - 1]);
            }
            assert forall|k: int| 0 <= k < bounds@.len() implies {
                &&& (#[trigger] bounds@[k]).0 <= bounds@[k].1 <= i + 1
                &&& chars@.subrange(bounds@[k].0 as int, bounds@[k].1 as int) == words(chars@.take(i + 1))[k]
            } by {
                if k < prev.len() {
                    assert(bounds@[k] == prev[k]);
                }
            }
        }
        i += 1;
    }
    assert(chars@.take(n as int) =~= chars@);
    bounds
}

/// The unsigned integer that `chars[lo..hi]` is the text of, as `usize::from_str`
/// reads it.
pub fn parse_usize_range(chars: &Vec<char>, lo: usize, hi: usize) -> (r: Option<usize>)
    requires
        lo <= hi <= chars@.len(),
    ensures
        r == parse_usize(chars@.subrange(lo as int, hi as int)),
{
    let ghost s = chars@.subrange(lo as int, hi as int);
    let start = if lo < hi && chars[lo] == '+' { lo + 1 } else { lo };
    let ghost digits = chars@.subrange(start as int, hi as int);
    assert(digits =~= (if s.len() > 0 && s[0] == '+' { s.drop_first() } else { s }));
    if start == hi {
        return None;
    }
    let mut value: usize = 0;
    let mut i = start;
    while i < hi
        invariant
            lo <= start <= i <= hi <= chars@.len(),
            s == chars@.subrange(lo as int, hi as int),
            digits == chars@.subrange(start as int, hi as int),
            digits == (if s.len() > 0 && s[0] == '+' { s.drop_first() } else { s }),
            forall|t: int| start <= t < i ==> is_digit(#[trigger] chars@[t]),
            value == digits_value(digits.take(i - start)),
        decreases hi - i,
    {
        let c = chars[i];
        if !('0' <= c && c <= '9') {
            assert(!is_digit(digits[i - start]));
            return None;
        }
        assert(digits.take(i + 1 - start).drop_last() =~= digits.take(i - start));
        assert(digits.take(i + 1 - start).last() == c);
        let d = (c as u32 - '0' as u32) as usize;
        if value > (usize::MAX - d) / 10 {
            let mut j = i + 1;
            while j < hi
                invariant
                    start <= i < j <= hi <= chars@.len(),
                    s == chars@.subrange(lo as int, hi as int),
                    digits == chars@.subrange(start as int, hi as int),
                    digits == (if s.len() > 0 && s[0] == '+' { s.drop_first() } else { s }),
                    forall|t: int| start <= t < j ==> is_digit(#[trigger] chars@[t]),
                    digits_value(digits.take(i + 1 - start)) > usize::MAX,
                decreases hi - j,
            {
                let c2 = chars[j];
                if !('0' <= c2 && c2 <= '9') {
                    assert(!is_digit(digits[j - start]));
                    return None;
                }
                j += 1;
            }
            assert(all_digits(digits));
            proof {
                lemma_digits_value_prefix(digits, i + 1 - start);
            }
            return None;
        }
        value = value * 10 + d;
        i += 1;
    }
    assert(digits.take(hi - start) =~= digits);
    Some(value)
}

// ------------------------------------------------------------------------------------------------
// Decimal text of integers.

/// The decimal digit of `d`, for `d` below 10.
pub open spec fn digit_char(d: nat) -> char {
    if d == 0 {
        '0'
    } else if d == 1 {
        '1'
    } else if d == 2 {
        '2'
    } else if d == 3 {
        '3'
    } else if d == 4 {
        '4'
    } else if d == 5 {
        '5'
    } else if d == 6 {
        '6'
    } else if d == 7 {
        '7'
    } else if d == 8 {
        '8'
    } else {
        '9'
    }
}

/// The decimal text of `n`, without leading zeros, as `Display` writes an integer.
pub open spec fn decimal(n: nat) -> Seq<char>
    decreases n,
{
    if n < 10 {
        seq![digit_char(n)]
    } else {
        decimal(n / 10).push(digit_char(n % 10))
    }
}

/// The text of one decimal digit.
fn digit_text(d: u64) -> (text: &'static str)
    requires
        d < 10,
    ensures
        text@ == seq![digit_char(d as nat)],
{
    proof {
        reveal_strlit("0");
        reveal_strlit("1");
        reveal_strlit("2");
        reveal_strlit("3");
        reveal_strlit("4");
        reveal_strlit("5");
        reveal_strlit("6");
        reveal_strlit("7");
        reveal_strlit("8");
        reveal_strlit("9");
    }
    if d == 0 {
        "0"
    } else if d == 1 {
        "1"
    } else if d == 2 {
        "2"
    } else if d == 3 {
        "3"
    } else if d == 4 {
        "4"
    } else if d == 5 {
        "5"
    } else if d == 6 {
        "6"
    } else if d == 7 {
        "7"
    } else if d == 8 {
        "8"
    } else {
        "9"
    }
}

/// The decimal text of `n`.
pub fn decimal_text(n: u64) -> (text: String)
    ensures
        text@ == decimal(n as nat),
    decreases n,
{
    if n < 10 {
        String::from_str(digit_text(n))
    } else {
        let mut text = decimal_text(n / 10);
        text.append(digit_text(n % 10));
        text
    }
}

/// The digit of `d` stands `d` above `0`.
proof fn lemma_digit_char(d: nat)
    requires
        d < 10,
    ensures
        is_digit(digit_char(d)),
        (digit_char(d) as nat) - ('0' as nat) == d,
{
    assert('0' as nat == 48);
    assert('9' as nat == 57);
    if d == 0 { assert('0' as nat == 48); }
    else if d == 1 { assert('1' as nat == 49); }
    else if d == 2 { assert('2' as nat == 50); }
    else if d == 3 { assert('3' as nat == 51); }
    else if d == 4 { assert('4' as nat == 52); }
    else if d == 5 { assert('5' as nat == 53); }
    else if d == 6 { assert('6' as nat == 54); }
    else if d == 7 { assert('7' as nat == 55); }
    else if d == 8 { assert('8' as nat == 56); }
    else { assert('9' as nat == 57); }
}

/// The text of a decimal number reads back as the number: `parse_usize` and
/// `parse_i32` undo `decimal`, the latter with a `-` for a negative number.
pub proof fn lemma_decimal_digits(n: nat)
    ensures
        decimal(n).len() > 0,
        all_digits(decimal(n)),
        digits_value(decimal(n)) == n,
        decimal(n)[0] != '+' && decimal(n)[0] != '-',
    decreases n,
{
    lemma_digit_char(n % 10);
    if n < 10 {
        let s = decimal(n);
        assert(s.drop_last() =~= Seq::<char>::empty());
        assert(s.last() == digit_char(n % 10));
        assert(digits_value(s) == digits_value(s.drop_last()) * 10 + (((s.last() as nat) - ('0' as nat)) as nat));
    } else {
        lemma_decimal_digits(n / 10);
        let s = decimal(n);
        assert(s.drop_last() =~= decimal(n / 10));
        assert forall|i: int| 0 <= i < s.len() implies is_digit(#[trigger] s[i]) by {
            if i < s.len() - 1 {
                assert(s[i] == decimal(n / 10)[i]);
            }
        }
        assert(s[0] == decimal(n / 10)[0]);
        assert(s.last() == digit_char(n % 10));
        assert(digits_value(s) == digits_value(s.drop_last()) * 10 + (((s.last() as nat) - ('0' as nat)) as nat));
        assert((n / 10) * 10 + n % 10 == n);
    }
}

/// The decimal text of an `i32`, with a `-` before a negative one, as `Display`
/// writes it.
pub open spec fn signed_decimal(l: i32) -> Seq<char> {
    if l < 0 {
        seq!['-'] + decimal((-(l as int)) as nat)
    } else {
        decimal(l as nat)
    }
}

/// Every `i32` reads back from its decimal text: `parse_i32` undoes `signed_decimal`.
pub proof fn lemma_parse_signed_decimal(l: i32)
    ensures
        parse_i32(signed_decimal(l)) == Some(l),
{
    if l < 0 {
        let n = (-(l as int)) as nat;
        lemma_decimal_digits(n);
        let s = signed_decimal(l);
        assert(s.drop_first() =~= decimal(n));
    } else {
        lemma_decimal_digits(l as nat);
    }
}

/// A text without the separator is a single piece.
pub proof fn lemma_split_without(s: Seq<char>, sep: char)
    requires
        !s.contains(sep),
    ensures
        split_on(s, sep) == seq![s],
    decreases s.len(),
{
    if s.len() > 0 {
        assert(!s.drop_last().contains(sep)) by {
            if s.drop_last().contains(sep) {
                let k = choose|k: int| 0 <= k < s.drop_last().len() && s.drop_last()[k] == sep;
                assert(s[k] == sep);
            }
        }
        lemma_split_without(s.drop_last(), sep);
        assert(s.last() != sep) by {
            assert(s[s.len() - 1] == s.last());
        }
        assert(s.drop_last().push(s.last()) =~= s);
        assert(seq![s.drop_last()].update(0, s.drop_last().push(s.last())) =~= seq![s]);
    } else {
        assert(s =~= Seq::<char>::empty());
    }
}

/// A separator followed by a text without it adds that text as the last piece.
pub proof fn lemma_split_append(a: Seq<char>, b: Seq<char>, sep: char)
    requires
        !b.contains(sep),
    ensures
        split_on(a + seq![sep] + b, sep) == split_on(a, sep).push(b),
    decreases b.len(),
{
    let s = a + seq![sep] + b;
    if b.len() == 0 {
        assert(s.drop_last() =~= a);
        assert(b =~= Seq::<char>::empty());
    } else {
        let b0 = b.drop_last();
        assert(!b0.contains(sep)) by {
            if b0.contains(sep) {
                let k = choose|k: int| 0 <= k < b0.len() && b0[k] == sep;
                assert(b[k] == sep);
            }
        }
        lemma_split_append(a, b0, sep);
        assert(s.drop_last() =~= a + seq![sep] + b0);
        assert(s.last() == b.last());
        assert(b.last() != sep) by {
            assert(b[b.len() - 1] == b.last());
        }
        assert(b0.push(b.last()) =~= b);
    }
}

/// A text whose ends are outside the set is left as it is by trimming.
pub proof fn lemma_trimmed_unchanged(s: Seq<char>, set: TrimSet)
    requires
        s.len() > 0 ==> !in_set(set, s[0]) && !in_set(set, s.last()),
    ensures
        trimmed(s, set) == s,
{
}

/// Characters of the set before a text are trimmed away.
pub proof fn lemma_trim_start_skips(x: char, s: Seq<char>, set: TrimSet)
    requires
        in_set(set, x),
    ensures
        trim_start(seq![x] + s, set) == trim_start(s, set),
{
    assert((seq![x] + s).drop_first() =~= s);
}

/// Characters of the set after a text are trimmed away.
pub proof fn lemma_trim_end_skips(s: Seq<char>, x: char, set: TrimSet)
    requires
        in_set(set, x),
    ensures
        trim_end(s.push(x), set) == trim_end(s, set),
{
    assert(s.push(x).drop_last() =~= s);
}

/// The digits of a number are neither white space nor `=`.
pub proof fn lemma_decimal_plain(n: nat)
    ensures
        !decimal(n).contains('='),
        !is_white_space(decimal(n)[0]),
        !is_white_space(decimal(n).last()),
{
    lemma_decimal_digits(n);
    let s = decimal(n);
    assert(is_digit(s[0]));
    assert(is_digit(s[s.len() - 1]));
    if s.contains('=') {
        let k = choose|k: int| 0 <= k < s.len() && s[k] == '=';
        assert(is_digit(s[k]));
    }
}

} // verus!
