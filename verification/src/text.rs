//! Characters, trimming and splitting: the lexical layer of the tokenizer.

use vstd::prelude::*;
use vstd::string::*;

verus! {

/// The code points that carry the Unicode property `White_Space`.
pub open spec fn is_space(c: char) -> bool {
    let n: int = c as int;
    ||| 0x09 <= n <= 0x0D
    ||| n == 0x20
    ||| n == 0x85
    ||| n == 0xA0
    ||| n == 0x1680
    ||| 0x2000 <= n <= 0x200A
    ||| n == 0x2028
    ||| n == 0x2029
    ||| n == 0x202F
    ||| n == 0x205F
    ||| n == 0x3000
}

/// `s` without its leading whitespace.
pub open spec fn trim_start(s: Seq<char>) -> Seq<char>
    decreases s.len(),
{
    if s.len() > 0 && is_space(s[0]) {
        trim_start(s.drop_first())
    } else {
        s
    }
}

/// `s` without its trailing whitespace.
pub open spec fn trim_end(s: Seq<char>) -> Seq<char>
    decreases s.len(),
{
    if s.len() > 0 && is_space(s.last()) {
        trim_end(s.drop_last())
    } else {
        s
    }
}

/// `s` without whitespace at either end.
pub open spec fn trimmed(s: Seq<char>) -> Seq<char> {
    trim_end(trim_start(s))
}

/// Whether the stage delimiter, a pipe between two single spaces, stands at
/// position `i` of `s`.
pub open spec fn delimiter_at(s: Seq<char>, i: int) -> bool {
    &&& 0 <= i
    &&& i + 3 <= s.len()
    &&& s[i] == ' '
    &&& s[i + 1] == '|'
    &&& s[i + 2] == ' '
}

/// The segments of `s` that are still to come when the current segment began
/// at `start` and has been scanned up to `at` without meeting a delimiter.
pub open spec fn segments_from(s: Seq<char>, start: int, at: int) -> Seq<Seq<char>>
    decreases s.len() - at,
{
    if at < 0 || at >= s.len() {
        seq![s.subrange(start, s.len() as int)]
    } else if delimiter_at(s, at) {
        seq![s.subrange(start, at)] + segments_from(s, at + 3, at + 3)
    } else {
        segments_from(s, start, at + 1)
    }
}

/// `s` cut at every delimiter, the delimiters found from left to right and
/// never overlapping. There is always at least one segment.
pub open spec fn segments(s: Seq<char>) -> Seq<Seq<char>> {
    segments_from(s, 0, 0)
}

/// The tokens of `s` from position `at` on, where `at` lies between words.
pub open spec fn tokens_from(s: Seq<char>, at: int) -> Seq<Seq<char>>
    decreases s.len() - at, 0int,
{
    if at < 0 || at >= s.len() {
        Seq::empty()
    } else if is_space(s[at]) {
        tokens_from(s, at + 1)
    } else {
        word_from(s, at, at + 1)
    }
}

/// The tokens of `s` that are still to come when a word began at `start` and
/// runs at least up to `at`.
pub open spec fn word_from(s: Seq<char>, start: int, at: int) -> Seq<Seq<char>>
    decreases s.len() - at, 1int,
{
    if at < 0 || at >= s.len() || is_space(s[at]) {
        seq![s.subrange(start, at)] + tokens_from(s, at)
    } else {
        word_from(s, start, at + 1)
    }
}

/// The maximal runs of characters of `s` that are not whitespace, in order.
pub open spec fn tokens(s: Seq<char>) -> Seq<Seq<char>> {
    tokens_from(s, 0)
}

/// Tells whether `c` is whitespace.
pub fn is_whitespace(c: char) -> (b: bool)
    ensures
        b == is_space(c),
{
    let n: u32 = c as u32;
    (0x09 <= n && n <= 0x0D) || n == 0x20 || n == 0x85 || n == 0xA0 || n == 0x1680 || (0x2000 <= n
        && n <= 0x200A) || n == 0x2028 || n == 0x2029 || n == 0x202F || n == 0x205F || n
        == 0x3000
}

/// The characters of `s`, for access by position.
fn chars_of(s: &str) -> (v: Vec<char>)
    ensures
        v@ == s@,
{
    let mut v: Vec<char> = Vec::new();
    for c in it: s.chars()
        invariant
            it.seq() == s@,
            v@ == it.seq().take(it.index()),
    {
        v.push(c);
    }
    assert(s@.take(s@.len() as int) =~= s@);
    v
}

/// What a vector looks like, as plain values, after one more item was pushed.
pub(crate) proof fn lemma_pushed<T: DeepView>(before: Vec<T>, after: Vec<T>, last: T)
    requires
        after@ == before@.push(last),
    ensures
        after.deep_view() == before.deep_view().push(last.deep_view()),
{
    assert(after.deep_view() =~= before.deep_view().push(last.deep_view()));
}

/// Strips the whitespace at both ends of `s`.
pub fn trim(s: &str) -> (r: &str)
    ensures
        r@ == trimmed(s@),
{
    let chars = chars_of(s);
    let n: usize = chars.len();
    let mut lo: usize = 0;
    assert(s@.subrange(0, n as int) =~= s@);
    while lo < n && is_whitespace(chars[lo])
        invariant
            lo <= n,
            n == chars.len(),
            chars@ == s@,
            trim_start(s@) == trim_start(s@.subrange(lo as int, n as int)),
        decreases n - lo,
    {
        assert(s@.subrange(lo as int, n as int).drop_first() =~= s@.subrange(
            lo as int + 1,
            n as int,
        ));
        lo += 1;
    }
    let mut hi: usize = n;
    while hi > lo && is_whitespace(chars[hi - 1])
        invariant
            lo <= hi <= n,
            n == chars.len(),
            chars@ == s@,
            trimmed(s@) == trim_end(s@.subrange(lo as int, hi as int)),
        decreases hi - lo,
    {
        assert(s@.subrange(lo as int, hi as int).drop_last() =~= s@.subrange(
            lo as int,
            hi as int - 1,
        ));
        hi -= 1;
    }
    s.substring_char(lo, hi)
}

/// Cuts `s` into the segments between its stage delimiters.
pub fn split_stages(s: &str) -> (r: Vec<String>)
    ensures
        r.deep_view() == segments(s@),
{
    let chars = chars_of(s);
    let n: usize = chars.len();
    let mut out: Vec<String> = Vec::new();
    let mut start: usize = 0;
    let mut at: usize = 0;
    assert(out.deep_view() + segments_from(s@, 0, 0) =~= segments(s@));
    while at < n
        invariant
            start <= at <= n,
            n == chars.len(),
            chars@ == s@,
            out.deep_view() + segments_from(s@, start as int, at as int) == segments(s@),
        decreases n - at,
    {
        if n - at >= 3 && chars[at] == ' ' && chars[at + 1] == '|' && chars[at + 2] == ' ' {
            let piece = String::from_str(s.substring_char(start, at));
            let ghost before = out;
            out.push(piece);
            proof {
                lemma_pushed(before, out, piece);
                assert(delimiter_at(s@, at as int));
                assert(out.deep_view() + segments_from(s@, at as int + 3, at as int + 3)
                    =~= before.deep_view() + segments_from(s@, start as int, at as int));
            }
            at += 3;
            start = at;
        } else {
            assert(!delimiter_at(s@, at as int));
            at += 1;
        }
    }
    let piece = String::from_str(s.substring_char(start, n));
    let ghost before = out;
    out.push(piece);
    proof {
        lemma_pushed(before, out, piece);
        assert(out.deep_view() =~= before.deep_view() + segments_from(
            s@,
            start as int,
            at as int,
        ));
    }
    out
}

/// Cuts `s` into its tokens: the runs of characters between whitespace.
pub fn split_tokens(s: &str) -> (r: Vec<String>)
    ensures
        r.deep_view() == tokens(s@),
{
    let chars = chars_of(s);
    let n: usize = chars.len();
    let mut out: Vec<String> = Vec::new();
    let mut at: usize = 0;
    assert(out.deep_view() + tokens_from(s@, 0) =~= tokens(s@));
    while at < n
        invariant
            at <= n,
            n == chars.len(),
            chars@ == s@,
            out.deep_view() + tokens_from(s@, at as int) == tokens(s@),
        decreases n - at,
    {
        if is_whitespace(chars[at]) {
            at += 1;
        } else {
            let start: usize = at;
            at += 1;
            while at < n && !is_whitespace(chars[at])
                invariant
                    start < at <= n,
                    n == chars.len(),
                    chars@ == s@,
                    word_from(s@, start as int, at as int) == tokens_from(s@, start as int),
                decreases n - at,
            {
                at += 1;
            }
            let token = String::from_str(s.substring_char(start, at));
            let ghost before = out;
            out.push(token);
            proof {
                lemma_pushed(before, out, token);
                assert(out.deep_view() + tokens_from(s@, at as int) =~= before.deep_view()
                    + tokens_from(s@, start as int));
            }
        }
    }
    assert(out.deep_view() + tokens_from(s@, at as int) =~= out.deep_view());
    out
}

/// A word: text that is not empty and holds no whitespace.
pub open spec fn is_word(t: Seq<char>) -> bool {
    &&& t.len() > 0
    &&& forall|j: int| 0 <= j < t.len() ==> !is_space(#[trigger] t[j])
}

proof fn lemma_segments_without_delimiter(s: Seq<char>, start: int, at: int)
    requires
        0 <= start <= at <= s.len(),
        forall|i: int| at <= i ==> !delimiter_at(s, i),
    ensures
        segments_from(s, start, at) == seq![s.subrange(start, s.len() as int)],
    decreases s.len() - at,
{
    if at < s.len() {
        lemma_segments_without_delimiter(s, start, at + 1);
    }
}

pub(crate) proof fn lemma_segments_exist(s: Seq<char>, start: int, at: int)
    requires
        0 <= start <= at <= s.len(),
    ensures
        segments_from(s, start, at).len() > 0,
    decreases s.len() - at,
{
    if at < s.len() {
        if delimiter_at(s, at) {
            lemma_segments_exist(s, at + 3, at + 3);
        } else {
            lemma_segments_exist(s, start, at + 1);
        }
    }
}

/// Text without a stage delimiter is one segment: itself.
pub proof fn one_segment_without_delimiter(s: Seq<char>)
    requires
        forall|i: int| !delimiter_at(s, i),
    ensures
        segments(s) == seq![s],
{
    lemma_segments_without_delimiter(s, 0, 0);
    assert(s.subrange(0, s.len() as int) =~= s);
}

proof fn lemma_trim_start(s: Seq<char>) -> (a: int)
    ensures
        0 <= a <= s.len(),
        trim_start(s) == s.subrange(a, s.len() as int),
        forall|i: int| 0 <= i < a ==> is_space(#[trigger] s[i]),
        a < s.len() ==> !is_space(s[a]),
    decreases s.len(),
{
    if s.len() > 0 && is_space(s[0]) {
        let rest = s.drop_first();
        let b = lemma_trim_start(rest);
        assert(rest.subrange(b, rest.len() as int) =~= s.subrange(b + 1, s.len() as int));
        assert forall|i: int| 0 <= i < b + 1 implies is_space(#[trigger] s[i]) by {
            if i > 0 {
                assert(s[i] == rest[i - 1]);
            }
        }
        if b + 1 < s.len() {
            assert(s[b + 1] == rest[b]);
        }
        b + 1
    } else {
        assert(s.subrange(0, s.len() as int) =~= s);
        0
    }
}

proof fn lemma_trim_end(s: Seq<char>) -> (b: int)
    ensures
        0 <= b <= s.len(),
        trim_end(s) == s.subrange(0, b),
        forall|i: int| b <= i < s.len() ==> is_space(#[trigger] s[i]),
        b > 0 ==> !is_space(s[b - 1]),
    decreases s.len(),
{
    if s.len() > 0 && is_space(s.last()) {
        let rest = s.drop_last();
        let b = lemma_trim_end(rest);
        assert(rest.subrange(0, b) =~= s.subrange(0, b));
        assert forall|i: int| b <= i < s.len() implies is_space(#[trigger] s[i]) by {
            if i < s.len() - 1 {
                assert(s[i] == rest[i]);
            }
        }
        if b > 0 {
            assert(s[b - 1] == rest[b - 1]);
        }
        b
    } else {
        assert(s.subrange(0, s.len() as int) =~= s);
        s.len() as int
    }
}

/// Trimming takes away the whitespace at the two ends and nothing else:
/// the trimmed text is the stretch of `s` between two positions, all that
/// lies outside them is whitespace, and the stretch neither begins nor ends
/// with whitespace. The two positions are given back.
pub proof fn trimmed_is_the_bare_middle(s: Seq<char>) -> (ends: (int, int))
    ensures
        0 <= ends.0 <= ends.1 <= s.len(),
        trimmed(s) == s.subrange(ends.0, ends.1),
        forall|i: int| 0 <= i < ends.0 ==> is_space(#[trigger] s[i]),
        forall|i: int| ends.1 <= i < s.len() ==> is_space(#[trigger] s[i]),
        trimmed(s).len() > 0 ==> !is_space(trimmed(s).first()) && !is_space(trimmed(s).last()),
{
    let a = lemma_trim_start(s);
    let tail = s.subrange(a, s.len() as int);
    let b = lemma_trim_end(tail);
    assert(tail.subrange(0, b) =~= s.subrange(a, a + b));
    assert forall|i: int| a + b <= i < s.len() implies is_space(#[trigger] s[i]) by {
        assert(s[i] == tail[i - a]);
    }
    if b > 0 {
        assert(trimmed(s).first() == s[a]);
        assert(trimmed(s).last() == tail[b - 1]);
    }
    (a, a + b)
}

/// The segments put together again, with a stage delimiter between every two
/// of them.
pub open spec fn joined(parts: Seq<Seq<char>>) -> Seq<char>
    decreases parts.len(),
{
    if parts.len() == 0 {
        Seq::empty()
    } else if parts.len() == 1 {
        parts[0]
    } else {
        parts[0] + " | "@ + joined(parts.drop_first())
    }
}

proof fn lemma_segments_join(s: Seq<char>, start: int, at: int)
    requires
        0 <= start <= at <= s.len(),
    ensures
        joined(segments_from(s, start, at)) == s.subrange(start, s.len() as int),
    decreases s.len() - at,
{
    reveal_strlit(" | ");
    if at < s.len() {
        if delimiter_at(s, at) {
            lemma_segments_join(s, at + 3, at + 3);
            lemma_segments_exist(s, at + 3, at + 3);
            let rest = segments_from(s, at + 3, at + 3);
            let all = seq![s.subrange(start, at)] + rest;
            assert(all.drop_first() =~= rest);
            assert(all[0] == s.subrange(start, at));
            assert(" | "@ =~= s.subrange(at, at + 3));
            assert(s.subrange(start, at) + s.subrange(at, at + 3) + s.subrange(
                at + 3,
                s.len() as int,
            ) =~= s.subrange(start, s.len() as int));
        } else {
            lemma_segments_join(s, start, at + 1);
        }
    }
}

/// Nothing is lost in cutting: the segments of a text, joined by the stage
/// delimiter, are the text.
pub proof fn segments_join_back(s: Seq<char>)
    ensures
        joined(segments(s)) == s,
{
    lemma_segments_join(s, 0, 0);
    assert(s.subrange(0, s.len() as int) =~= s);
}

/// Whether no stage delimiter stands anywhere in any of `parts`.
pub open spec fn delimiter_free(parts: Seq<Seq<char>>) -> bool {
    forall|k: int, i: int| 0 <= k < parts.len() ==> !#[trigger] delimiter_at(parts[k], i)
}

proof fn lemma_segments_bare(s: Seq<char>, start: int, at: int)
    requires
        0 <= start <= at <= s.len(),
        forall|j: int| start <= j < at ==> !delimiter_at(s, j),
    ensures
        delimiter_free(segments_from(s, start, at)),
    decreases s.len() - at,
{
    let all = segments_from(s, start, at);
    if at < s.len() {
        if delimiter_at(s, at) {
            lemma_segments_bare(s, at + 3, at + 3);
            let piece = s.subrange(start, at);
            let rest = segments_from(s, at + 3, at + 3);
            assert(all == seq![piece] + rest);
            assert forall|k: int, i: int| 0 <= k < all.len() implies !#[trigger] delimiter_at(
                all[k],
                i,
            ) by {
                if k == 0 {
                    if delimiter_at(piece, i) {
                        assert(piece[i] == s[start + i]);
                        assert(piece[i + 1] == s[start + i + 1]);
                        assert(piece[i + 2] == s[start + i + 2]);
                        assert(delimiter_at(s, start + i));
                    }
                } else {
                    assert(all[k] == rest[k - 1]);
                }
            }
        } else {
            lemma_segments_bare(s, start, at + 1);
        }
    } else {
        let piece = s.subrange(start, s.len() as int);
        assert(all == seq![piece]);
        assert forall|k: int, i: int| 0 <= k < all.len() implies !#[trigger] delimiter_at(
            all[k],
            i,
        ) by {
            if delimiter_at(piece, i) {
                assert(piece[i] == s[start + i]);
                assert(piece[i + 1] == s[start + i + 1]);
                assert(piece[i + 2] == s[start + i + 2]);
                assert(delimiter_at(s, start + i));
            }
        }
    }
}

/// Every delimiter is cut out: none is left in any segment.
pub proof fn segments_hold_no_delimiter(s: Seq<char>)
    ensures
        delimiter_free(segments(s)),
{
    lemma_segments_bare(s, 0, 0);
}

/// Whether every one of `list` is a word.
pub open spec fn all_words(list: Seq<Seq<char>>) -> bool {
    forall|k: int| 0 <= k < list.len() ==> is_word(#[trigger] list[k])
}

proof fn lemma_tokens_from_are_words(s: Seq<char>, at: int)
    requires
        0 <= at,
    ensures
        all_words(tokens_from(s, at)),
    decreases s.len() - at, 0int,
{
    if at < s.len() {
        if is_space(s[at]) {
            lemma_tokens_from_are_words(s, at + 1);
        } else {
            lemma_word_from_are_words(s, at, at + 1);
        }
    }
}

proof fn lemma_word_from_are_words(s: Seq<char>, start: int, at: int)
    requires
        0 <= start < at <= s.len(),
        forall|j: int| start <= j < at ==> !is_space(#[trigger] s[j]),
    ensures
        all_words(word_from(s, start, at)),
    decreases s.len() - at, 1int,
{
    if at >= s.len() || is_space(s[at]) {
        lemma_tokens_from_are_words(s, at);
        let word = s.subrange(start, at);
        let rest = tokens_from(s, at);
        let all = word_from(s, start, at);
        assert(all == seq![word] + rest);
        assert(is_word(word)) by {
            assert forall|j: int| 0 <= j < word.len() implies !is_space(#[trigger] word[j]) by {
                assert(word[j] == s[start + j]);
            }
        }
        assert forall|k: int| 0 <= k < all.len() implies is_word(#[trigger] all[k]) by {
            if k > 0 {
                assert(all[k] == rest[k - 1]);
            } else {
                assert(all[0] == word);
            }
        }
    } else {
        lemma_word_from_are_words(s, start, at + 1);
    }
}

/// Every token is a word: it is not empty and holds no whitespace.
pub proof fn tokens_are_words(s: Seq<char>)
    ensures
        all_words(tokens(s)),
{
    lemma_tokens_from_are_words(s, 0);
}

} // verus!
