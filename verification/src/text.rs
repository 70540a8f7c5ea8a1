//! Character-level helpers: whitespace, words of a line, trimming, and
//! the classification of source lines into blank lines, comments and labels.
use vstd::prelude::*;

verus! {

/// The Unicode `White_Space` property, the set that `char::is_whitespace`,
/// `str::trim` and `str::split_whitespace` use.
pub open spec fn is_white_space(c: char) -> bool {
    ||| ('\u{9}' <= c && c <= '\u{d}')
    ||| c == ' '
    ||| c == '\u{85}'
    ||| c == '\u{a0}'
    ||| c == '\u{1680}'
    ||| ('\u{2000}' <= c && c <= '\u{200a}')
    ||| c == '\u{2028}'
    ||| c == '\u{2029}'
    ||| c == '\u{202f}'
    ||| c == '\u{205f}'
    ||| c == '\u{3000}'
}

/// The whitespace-separated words of `s`, in order: each word is a maximal
/// run of characters that are not white space.
pub open spec fn words(s: Seq<char>) -> Seq<Seq<char>>
    decreases s.len(),
{
    if s.len() == 0 {
        seq![]
    } else {
        let prev = words(s.drop_last());
        let c = s.last();
        if is_white_space(c) {
            prev
        } else if s.len() >= 2 && !is_white_space(s[s.len() - 2]) {
            prev.update(prev.len() - 1, prev.last().push(c))
        } else {
            prev.push(seq![c])
        }
    }
}

/// `s` without its leading white space.
pub open spec fn trim_start(s: Seq<char>) -> Seq<char>
    decreases s.len(),
{
    if s.len() > 0 && is_white_space(s[0]) {
        trim_start(s.drop_first())
    } else {
        s
    }
}

/// `s` without its trailing white space.
pub open spec fn trim_end(s: Seq<char>) -> Seq<char>
    decreases s.len(),
{
    if s.len() > 0 && is_white_space(s.last()) {
        trim_end(s.drop_last())
    } else {
        s
    }
}

/// `s` without leading and trailing white space.
pub open spec fn trim(s: Seq<char>) -> Seq<char> {
    trim_end(trim_start(s))
}

/// `s` without its leading run of characters that are not white space.
pub open spec fn skip_word(s: Seq<char>) -> Seq<char>
    decreases s.len(),
{
    if s.len() > 0 && !is_white_space(s[0]) {
        skip_word(s.drop_first())
    } else {
        s
    }
}

/// What follows the first word of `s` (leading white space, then the first
/// word, are dropped).
pub open spec fn after_first_word(s: Seq<char>) -> Seq<char> {
    skip_word(trim_start(s))
}

/// A line that holds only white space (or nothing).
pub open spec fn blank_line(s: Seq<char>) -> bool {
    forall|i: int| 0 <= i < s.len() ==> #[trigger] is_white_space(s[i])
}

/// A line whose trimmed text starts with `//`.
pub open spec fn comment_line(s: Seq<char>) -> bool {
    let t = trim(s);
    t.len() >= 2 && t[0] == '/' && t[1] == '/'
}

/// A line that is a jump label: at most one word, not a comment, and its
/// last character (untrimmed) is `:`.
pub open spec fn label_line(s: Seq<char>) -> bool {
    &&& words(s).len() <= 1
    &&& !comment_line(s)
    &&& s.len() > 0
    &&& s.last() == ':'
}

/// The name a label line declares: its trimmed text without the final `:`.
pub open spec fn label_name(s: Seq<char>) -> Seq<char> {
    trim(s).drop_last()
}

/// Whether `c` has the Unicode `White_Space` property.
pub fn is_whitespace(c: char) -> (r: bool)
    ensures
        r == is_white_space(c),
{
    ('\u{9}' <= c && c <= '\u{d}') || c == ' ' || c == '\u{85}' || c == '\u{a0}' || c
        == '\u{1680}' || ('\u{2000}' <= c && c <= '\u{200a}') || c == '\u{2028}' || c
        == '\u{2029}' || c == '\u{202f}' || c == '\u{205f}' || c == '\u{3000}'
}

/// The characters of `s`, in order.
pub fn chars_of(s: &str) -> (v: Vec<char>)
    ensures
        v@ == s@,
{
    let mut v: Vec<char> = Vec::new();
    for c in it: s.chars()
        invariant
            v@ == it.seq().take(it.index() as int),
    {
        v.push(c);
    }
    v
}

/// A word is never empty, and a nonempty sequence of words ends with the
/// word that holds the last character when that character is not white space.
proof fn lemma_words_shape(s: Seq<char>)
    ensures
        forall|k: int| 0 <= k < words(s).len() ==> #[trigger] words(s)[k].len() > 0,
        s.len() > 0 && !is_white_space(s.last()) ==> words(s).len() > 0,
    decreases s.len(),
{
    if s.len() > 0 {
        let prev = words(s.drop_last());
        lemma_words_shape(s.drop_last());
        let c = s.last();
        if !is_white_space(c) {
            if s.len() >= 2 && !is_white_space(s[s.len() - 2]) {
                assert(s.drop_last().last() == s[s.len() - 2]);
                let w = prev.update(prev.len() - 1, prev.last().push(c));
                assert forall|k: int| 0 <= k < w.len() implies #[trigger] w[k].len() > 0 by {
                    if k == prev.len() - 1 {
                    } else {
                        assert(w[k] == prev[k]);
                    }
                }
            } else {
                let w = prev.push(seq![c]);
                assert forall|k: int| 0 <= k < w.len() implies #[trigger] w[k].len() > 0 by {
                    if k < prev.len() {
                        assert(w[k] == prev[k]);
                    }
                }
            }
        }
    }
}

/// Splits the characters `v` into their whitespace-separated words.
pub fn split_words(v: &Vec<char>) -> (r: Vec<Vec<char>>)
    ensures
        r@.len() == words(v@).len(),
        forall|k: int| 0 <= k < r@.len() ==> #[trigger] r@[k]@ == words(v@)[k],
{
    let mut r: Vec<Vec<char>> = Vec::new();
    let mut i: usize = 0;
    while i < v.len()
        invariant
            i <= v.len(),
            r@.len() == words(v@.take(i as int)).len(),
            forall|k: int| 0 <= k < r@.len() ==> #[trigger] r@[k]@ == words(v@.take(i as int))[k],
        decreases v.len() - i,
    {
        let c = v[i];
        let ghost pre = v@.take(i as int);
        let ghost cur = v@.take(i + 1);
        assert(cur.drop_last() =~= pre);
        assert(cur.last() == c);
        if is_whitespace(c) {
        } else if i >= 1 && !is_whitespace(v[i - 1]) {
            proof {
                assert(cur[cur.len() - 2] == v@[i - 1]);
                assert(pre.last() == v@[i - 1]);
                lemma_words_shape(pre);
            }
            let mut w = r.pop().unwrap();
            w.push(c);
            r.push(w);
        } else {
            let mut w: Vec<char> = Vec::new();
            w.push(c);
            assert(w@ =~= seq![c]);
            r.push(w);
        }
        i = i + 1;
    }
    assert(v@.take(v.len() as int) =~= v@);
    r
}

/// The number of whitespace-separated words in `line`.
pub fn count_words(line: &str) -> (n: usize)
    ensures
        n == words(line@).len(),
{
    let v = chars_of(line);
    split_words(&v).len()
}

/// The word of `line` at position `index` (counting from 0), if there is one.
pub fn get_word(line: &str, index: usize) -> (w: Option<Vec<char>>)
    ensures
        index < words(line@).len() ==> w is Some && w->0@ == words(line@)[index as int],
        index >= words(line@).len() ==> w is None,
{
    let v = chars_of(line);
    let ws = split_words(&v);
    if index < ws.len() {
        Some(ws[index].clone())
    } else {
        None
    }
}

/// Dropping a prefix of white space does not change `trim_start`.
proof fn lemma_trim_start_skip(s: Seq<char>, i: int)
    requires
        0 <= i <= s.len(),
        forall|j: int| 0 <= j < i ==> #[trigger] is_white_space(s[j]),
    ensures
        trim_start(s) == trim_start(s.skip(i)),
    decreases i,
{
    if i == 0 {
        assert(s.skip(0) =~= s);
    } else {
        assert(is_white_space(s[0]));
        lemma_trim_start_skip(s.drop_first(), i - 1);
        assert(s.drop_first().skip(i - 1) =~= s.skip(i));
    }
}

/// Dropping a prefix of non-white-space characters does not change `skip_word`.
proof fn lemma_skip_word_skip(s: Seq<char>, i: int)
    requires
        0 <= i <= s.len(),
        forall|j: int| 0 <= j < i ==> !#[trigger] is_white_space(s[j]),
    ensures
        skip_word(s) == skip_word(s.skip(i)),
    decreases i,
{
    if i == 0 {
        assert(s.skip(0) =~= s);
    } else {
        assert(!is_white_space(s[0]));
        lemma_skip_word_skip(s.drop_first(), i - 1);
        assert(s.drop_first().skip(i - 1) =~= s.skip(i));
    }
}

/// Dropping a suffix of white space does not change `trim_end`.
proof fn lemma_trim_end_take(s: Seq<char>, j: int)
    requires
        0 <= j <= s.len(),
        forall|k: int| j <= k < s.len() ==> #[trigger] is_white_space(s[k]),
    ensures
        trim_end(s) == trim_end(s.take(j)),
    decreases s.len() - j,
{
    if j == s.len() {
        assert(s.take(j) =~= s);
    } else {
        assert(is_white_space(s.last()));
        lemma_trim_end_take(s.drop_last(), j);
        assert(s.drop_last().take(j) =~= s.take(j));
    }
}

/// A line is at most one of blank, comment and label.
pub proof fn lemma_line_kinds_exclusive(s: Seq<char>)
    ensures
        blank_line(s) ==> !comment_line(s) && !label_line(s),
        comment_line(s) ==> !label_line(s),
{
    if blank_line(s) {
        lemma_trim_start_skip(s, s.len() as int);
        assert(s.skip(s.len() as int).len() == 0);
        if s.len() > 0 {
            assert(is_white_space(s[s.len() - 1]));
        }
    }
}

/// The index of the first character at or after `from` that is (when
/// `white` holds) or is not (otherwise) white space, or `v.len()`.
fn scan_run(v: &Vec<char>, from: usize, white: bool) -> (i: usize)
    requires
        from <= v.len(),
    ensures
        from <= i <= v.len(),
        forall|j: int| from <= j < i ==> #[trigger] is_white_space(v@[j]) == white,
        i < v.len() ==> is_white_space(v@[i as int]) != white,
{
    let mut i = from;
    while i < v.len() && is_whitespace(v[i]) == white
        invariant
            from <= i <= v.len(),
            forall|j: int| from <= j < i ==> #[trigger] is_white_space(v@[j]) == white,
        decreases v.len() - i,
    {
        i = i + 1;
    }
    i
}

/// The characters `v[from..to]`.
fn copy_range(v: &Vec<char>, from: usize, to: usize) -> (r: Vec<char>)
    requires
        from <= to <= v.len(),
    ensures
        r@ == v@.subrange(from as int, to as int),
{
    let mut r: Vec<char> = Vec::new();
    let mut k = from;
    while k < to
        invariant
            from <= k <= to <= v.len(),
            r@ == v@.subrange(from as int, k as int),
        decreases to - k,
    {
        r.push(v[k]);
        k = k + 1;
        assert(r@ =~= v@.subrange(from as int, k as int));
    }
    r
}

/// The characters `v` without leading and trailing white space.
pub fn trim_chars(v: &Vec<char>) -> (t: Vec<char>)
    ensures
        t@ == trim(v@),
{
    let i = scan_run(v, 0, true);
    proof {
        lemma_trim_start_skip(v@, i as int);
    }
    let mut j = v.len();
    while j > i && is_whitespace(v[j - 1])
        invariant
            i <= j <= v.len(),
            forall|k: int| j <= k < v.len() ==> #[trigger] is_white_space(v@[k]),
        decreases j,
    {
        j = j - 1;
    }
    proof {
        let u = v@.skip(i as int);
        if i < v.len() {
            assert(trim_start(u) == u);
        } else {
            assert(u.len() == 0);
        }
        assert forall|k: int| j - i <= k < u.len() implies #[trigger] is_white_space(u[k]) by {
            assert(u[k] == v@[k + i]);
        }
        lemma_trim_end_take(u, j - i);
        let w = u.take(j - i);
        assert(w =~= v@.subrange(i as int, j as int));
        if j > i {
            assert(w.last() == v@[j - 1]);
        }
        assert(trim_end(w) == w);
    }
    copy_range(v, i, j)
}

/// The text of `line` without leading and trailing white space.
pub fn trim_line(line: &str) -> (t: Vec<char>)
    ensures
        t@ == trim(line@),
{
    let v = chars_of(line);
    trim_chars(&v)
}

/// What follows the first word of the characters `v`.
pub fn without_first_word_chars(v: &Vec<char>) -> (r: Vec<char>)
    ensures
        r@ == after_first_word(v@),
{
    let i = scan_run(v, 0, true);
    let j = scan_run(v, i, false);
    proof {
        lemma_trim_start_skip(v@, i as int);
        let u = v@.skip(i as int);
        if i < v.len() {
            assert(trim_start(u) == u);
        } else {
            assert(u.len() == 0);
        }
        assert forall|k: int| 0 <= k < j - i implies !#[trigger] is_white_space(u[k]) by {
            assert(u[k] == v@[k + i]);
        }
        lemma_skip_word_skip(u, j - i);
        let w = u.skip(j - i);
        assert(w =~= v@.subrange(j as int, v.len() as int));
        if j < v.len() {
            assert(w[0] == v@[j as int]);
        }
        assert(skip_word(w) == w);
    }
    copy_range(v, j, v.len())
}

/// What follows the first word of `line`.
pub fn without_first_word(line: &str) -> (r: Vec<char>)
    ensures
        r@ == after_first_word(line@),
{
    let v = chars_of(line);
    without_first_word_chars(&v)
}

/// Whether the characters `v` are all white space.
pub fn is_blank_chars(v: &Vec<char>) -> (r: bool)
    ensures
        r == blank_line(v@),
{
    let i = scan_run(v, 0, true);
    if i < v.len() {
        assert(!is_white_space(v@[i as int]));
        false
    } else {
        true
    }
}

/// Whether `line` holds only white space.
pub fn is_blankline(line: &str) -> (r: bool)
    ensures
        r == blank_line(line@),
{
    let v = chars_of(line);
    is_blank_chars(&v)
}

/// Whether the characters `v`, once trimmed, start with `//`.
pub fn is_comment_chars(v: &Vec<char>) -> (r: bool)
    ensures
        r == comment_line(v@),
{
    let t = trim_chars(v);
    t.len() >= 2 && t[0] == '/' && t[1] == '/'
}

/// Whether `line`, once trimmed, starts with `//`.
pub fn is_comment(line: &str) -> (r: bool)
    ensures
        r == comment_line(line@),
{
    let v = chars_of(line);
    is_comment_chars(&v)
}

/// Whether the characters `v` declare a jump label.
pub fn is_label_chars(v: &Vec<char>) -> (r: bool)
    ensures
        r == label_line(v@),
{
    if split_words(v).len() > 1 {
        return false;
    }
    !is_comment_chars(v) && v.len() > 0 && v[v.len() - 1] == ':'
}

/// Whether `line` declares a jump label: a single word that is not a
/// comment and whose last character is `:`.
pub fn is_label(line: &str) -> (r: bool)
    ensures
        r == label_line(line@),
{
    let v = chars_of(line);
    is_label_chars(&v)
}


/// `trim_start(s)` drops exactly the leading white space: it is `s` from
/// the first character that is not white space (or empty).
pub proof fn lemma_trim_start_shape(s: Seq<char>) -> (k: int)
    ensures
        0 <= k <= s.len(),
        trim_start(s) == s.skip(k),
        forall|i: int| 0 <= i < k ==> #[trigger] is_white_space(s[i]),
        k < s.len() ==> !is_white_space(s[k]),
    decreases s.len(),
{
    if s.len() > 0 && is_white_space(s[0]) {
        let k0 = lemma_trim_start_shape(s.drop_first());
        assert(s.drop_first().skip(k0) =~= s.skip(k0 + 1));
        assert forall|i: int| 0 <= i < k0 + 1 implies #[trigger] is_white_space(s[i]) by {
            if i > 0 {
                assert(s[i] == s.drop_first()[i - 1]);
            }
        }
        if k0 + 1 < s.len() {
            assert(s[k0 + 1] == s.drop_first()[k0]);
        }
        k0 + 1
    } else {
        assert(s.skip(0) =~= s);
        0
    }
}

/// `trim_end(s)` drops exactly the trailing white space: it is `s` up to
/// the last character that is not white space (or empty).
pub proof fn lemma_trim_end_shape(s: Seq<char>) -> (m: int)
    ensures
        0 <= m <= s.len(),
        trim_end(s) == s.take(m),
        forall|i: int| m <= i < s.len() ==> #[trigger] is_white_space(s[i]),
        m > 0 ==> !is_white_space(s[m - 1]),
    decreases s.len(),
{
    if s.len() > 0 && is_white_space(s.last()) {
        let m0 = lemma_trim_end_shape(s.drop_last());
        assert(s.drop_last().take(m0) =~= s.take(m0));
        assert forall|i: int| m0 <= i < s.len() implies #[trigger] is_white_space(s[i]) by {
            if i < s.len() - 1 {
                assert(s[i] == s.drop_last()[i]);
            }
        }
        if m0 > 0 {
            assert(s[m0 - 1] == s.drop_last()[m0 - 1]);
        }
        m0
    } else {
        assert(s.take(s.len() as int) =~= s);
        s.len() as int
    }
}

/// The trimmed text of `s` is the stretch of `s` from its first to its last
/// character that is not white space: it neither starts nor ends with white
/// space, and everything of `s` outside it is white space.
pub proof fn lemma_trim_shape(s: Seq<char>) -> (km: (int, int))
    ensures
        0 <= km.0 <= km.1 <= s.len(),
        trim(s) == s.subrange(km.0, km.1),
        forall|i: int| 0 <= i < km.0 ==> #[trigger] is_white_space(s[i]),
        forall|i: int| km.1 <= i < s.len() ==> #[trigger] is_white_space(s[i]),
        trim(s).len() > 0 ==> !is_white_space(trim(s)[0]) && !is_white_space(trim(s).last()),
        km.0 < s.len() ==> !is_white_space(s[km.0]),
{
    let k = lemma_trim_start_shape(s);
    let u = s.skip(k);
    let m = lemma_trim_end_shape(u);
    assert(u.take(m) =~= s.subrange(k, k + m));
    assert forall|i: int| k + m <= i < s.len() implies #[trigger] is_white_space(s[i]) by {
        assert(s[i] == u[i - k]);
    }
    if m > 0 {
        assert(trim(s)[0] == u[0]);
        assert(trim(s).last() == u[m - 1]);
    }
    (k, k + m)
}

/// A line of white space only has no words.
proof fn lemma_words_blank(s: Seq<char>)
    requires
        blank_line(s),
    ensures
        words(s).len() == 0,
    decreases s.len(),
{
    if s.len() > 0 {
        assert(is_white_space(s[s.len() - 1]));
        lemma_words_blank(s.drop_last());
    }
}

/// A leading white-space character does not change the words.
proof fn lemma_words_lead_space(c: char, r: Seq<char>)
    requires
        is_white_space(c),
    ensures
        words(seq![c] + r) == words(r),
    decreases r.len(),
{
    let x = seq![c] + r;
    if r.len() == 0 {
        assert(x =~= seq![c]);
        assert(r =~= Seq::<char>::empty());
        assert(x.drop_last() =~= Seq::<char>::empty());
        assert(words(x) == words(x.drop_last()));
    } else {
        let rp = r.drop_last();
        lemma_words_lead_space(c, rp);
        assert(x.drop_last() =~= seq![c] + rp);
        assert(x.last() == r.last());
        if r.len() >= 2 {
            assert(x[x.len() - 2] == r[r.len() - 2]);
        } else {
            assert(x[x.len() - 2] == c);
        }
    }
}

/// Trimming does not change the words of a line.
pub proof fn lemma_words_trim(s: Seq<char>)
    ensures
        words(trim(s)) == words(s),
{
    lemma_words_trim_start(s);
    lemma_words_trim_end(trim_start(s));
}

proof fn lemma_words_trim_start(s: Seq<char>)
    ensures
        words(trim_start(s)) == words(s),
    decreases s.len(),
{
    if s.len() > 0 && is_white_space(s[0]) {
        lemma_words_trim_start(s.drop_first());
        assert(s =~= seq![s[0]] + s.drop_first());
        lemma_words_lead_space(s[0], s.drop_first());
    }
}

proof fn lemma_words_trim_end(s: Seq<char>)
    ensures
        words(trim_end(s)) == words(s),
    decreases s.len(),
{
    if s.len() > 0 && is_white_space(s.last()) {
        lemma_words_trim_end(s.drop_last());
    }
}

/// Longer prefixes have at least as many words; a character that is not
/// white space right after white space (or at the start) begins one more.
proof fn lemma_words_prefix(t: Seq<char>, a: int, b: int)
    requires
        0 <= a <= b <= t.len(),
    ensures
        words(t.take(a)).len() <= words(t.take(b)).len(),
        a < b && !is_white_space(t[a]) && (a == 0 || is_white_space(t[a - 1])) ==> words(
            t.take(a),
        ).len() + 1 <= words(t.take(b)).len(),
    decreases b - a,
{
    if a < b {
        lemma_words_prefix(t, a, b - 1);
        let x = t.take(b);
        assert(x.drop_last() =~= t.take(b - 1));
        assert(x.last() == t[b - 1]);
        if b >= 2 {
            assert(x[x.len() - 2] == t[b - 2]);
        }
    }
}

/// Between a white-space character and a later one that is not, there is a
/// place where white space is followed by a character that is not.
proof fn lemma_space_then_word(t: Seq<char>, k: int, j: int) -> (m: int)
    requires
        0 <= k < j < t.len(),
        is_white_space(t[k]),
        !is_white_space(t[j]),
    ensures
        k <= m < j,
        is_white_space(t[m]),
        !is_white_space(t[m + 1]),
    decreases j - k,
{
    if is_white_space(t[j - 1]) {
        j - 1
    } else {
        lemma_space_then_word(t, k, j - 1)
    }
}

/// A nonempty text without white space is one word: itself.
proof fn lemma_words_solid(t: Seq<char>)
    requires
        t.len() > 0,
        forall|i: int| 0 <= i < t.len() ==> !#[trigger] is_white_space(t[i]),
    ensures
        words(t) == seq![t],
    decreases t.len(),
{
    if t.len() == 1 {
        assert(t.drop_last() =~= Seq::<char>::empty());
        assert(words(t.drop_last()) =~= Seq::<Seq<char>>::empty());
        assert(t =~= seq![t.last()]);
        assert(words(t) =~= seq![seq![t.last()]]);
    } else {
        let p = t.drop_last();
        assert forall|i: int| 0 <= i < p.len() implies !#[trigger] is_white_space(p[i]) by {
            assert(p[i] == t[i]);
        }
        lemma_words_solid(p);
        assert(t[t.len() - 2] == p.last());
        assert(!is_white_space(t[t.len() - 2]));
        assert(p.push(t.last()) =~= t);
        assert(words(t) == words(p).update(0, p.push(t.last())));
        assert(words(t) =~= seq![t]);
    }
}

/// A text that neither starts nor ends with white space and has at most one
/// word holds no white space at all.
proof fn lemma_one_word_solid(t: Seq<char>)
    requires
        t.len() > 0,
        !is_white_space(t[0]),
        !is_white_space(t.last()),
        words(t).len() <= 1,
    ensures
        forall|i: int| 0 <= i < t.len() ==> !#[trigger] is_white_space(t[i]),
{
    assert forall|i: int| 0 <= i < t.len() implies !#[trigger] is_white_space(t[i]) by {
        if is_white_space(t[i]) {
            let m = lemma_space_then_word(t, i, t.len() - 1);
            lemma_words_prefix(t, 0, 1);
            lemma_words_prefix(t, 1, m + 1);
            lemma_words_prefix(t, m + 1, t.len() as int);
            assert(t.take(t.len() as int) =~= t);
            assert(t.take(1).drop_last() =~= Seq::<char>::empty());
            assert(t.take(1).last() == t[0]);
        }
    }
}

/// A label line (judged trimmed) is a single word ending in `:`, and the
/// label it declares is that word without the `:`: a name with no white
/// space in it, whatever white space surrounds the word on the line.
pub proof fn lemma_label_is_its_word(s: Seq<char>)
    requires
        label_line(trim(s)),
    ensures
        words(s).len() == 1,
        words(s)[0].len() > 0,
        words(s)[0].last() == ':',
        label_name(s) == words(s)[0].drop_last(),
        forall|i: int| 0 <= i < label_name(s).len() ==> !#[trigger] is_white_space(label_name(s)[i]),
{
    let t = trim(s);
    lemma_trim_shape(s);
    lemma_one_word_solid(t);
    lemma_words_solid(t);
    lemma_words_trim(s);
    assert forall|i: int| 0 <= i < label_name(s).len() implies !#[trigger] is_white_space(
        label_name(s)[i],
    ) by {
        assert(label_name(s)[i] == t[i]);
    }
}

/// A line is a comment exactly when, after its leading white space, its
/// first two characters are `//`, whatever follows them.
pub proof fn lemma_comment_is_slashes(s: Seq<char>)
    ensures
        comment_line(s) <==> exists|k: int|
            0 <= k && k + 2 <= s.len() && #[trigger] s[k] == '/' && s[k + 1] == '/' && (forall|i: int|
                0 <= i < k ==> #[trigger] is_white_space(s[i])),
{
    let km = lemma_trim_shape(s);
    let (a, b) = km;
    if comment_line(s) {
        let t = trim(s);
        assert(t[0] == s[a]);
        assert(t[1] == s[a + 1]);
        assert(0 <= a && a + 2 <= s.len() && s[a] == '/' && s[a + 1] == '/' && (forall|i: int|
            0 <= i < a ==> #[trigger] is_white_space(s[i])));
    }
    if exists|k: int|
        0 <= k && k + 2 <= s.len() && #[trigger] s[k] == '/' && s[k + 1] == '/' && (forall|i: int|
            0 <= i < k ==> #[trigger] is_white_space(s[i])) {
        let k = choose|k: int|
            0 <= k && k + 2 <= s.len() && #[trigger] s[k] == '/' && s[k + 1] == '/' && (forall|i: int|
                0 <= i < k ==> #[trigger] is_white_space(s[i]));
        // The first character that is not white space is the first '/'.
        if a < k {
            assert(is_white_space(s[a]));
            assert(false);
        }
        if a > k {
            assert(is_white_space(s[k]));
            assert(false);
        }
        if b <= k + 1 {
            assert(is_white_space(s[k + 1]));
            assert(false);
        }
        let t = trim(s);
        assert(t[0] == s[k]);
        assert(t[1] == s[k + 1]);
    }
}


/// The words of a text that starts with a character `c` that is not white
/// space: `c` joins the first word of the rest when the rest starts with a
/// word, else it is a word of its own in front.
proof fn lemma_words_cons(c: char, r: Seq<char>)
    requires
        !is_white_space(c),
    ensures
        words(seq![c] + r) == if r.len() > 0 && !is_white_space(r[0]) {
            words(r).update(0, seq![c] + words(r)[0])
        } else {
            seq![seq![c]] + words(r)
        },
        r.len() > 0 && !is_white_space(r[0]) ==> words(r).len() > 0,
    decreases r.len(),
{
    let x = seq![c] + r;
    lemma_words_shape(r);
    if r.len() == 0 {
        assert(x =~= seq![c]);
        assert(r =~= Seq::<char>::empty());
        assert(x.drop_last() =~= Seq::<char>::empty());
        assert(words(x) =~= seq![seq![c]]);
        assert(seq![seq![c]] + words(r) =~= seq![seq![c]]);
    } else {
        let rp = r.drop_last();
        let d = r.last();
        lemma_words_cons(c, rp);
        lemma_words_shape(rp);
        assert(x.drop_last() =~= seq![c] + rp);
        assert(x.last() == d);
        let wx = words(seq![c] + rp);
        let wr = words(rp);
        if rp.len() == 0 {
            assert(rp =~= Seq::<char>::empty());
            assert(wx =~= seq![seq![c]]);
            assert(r =~= seq![d]);
            assert(r.drop_last() =~= Seq::<char>::empty());
            assert(x[x.len() - 2] == c);
            if is_white_space(d) {
                assert(words(r) =~= Seq::<Seq<char>>::empty());
                assert(words(x) =~= seq![seq![c]]);
                assert(seq![seq![c]] + words(r) =~= seq![seq![c]]);
            } else {
                assert(words(r) =~= seq![seq![d]]);
                assert(words(x) == wx.update(0, wx[0].push(d)));
                assert(wx[0].push(d) =~= seq![c, d]);
                assert(words(x) =~= seq![seq![c, d]]);
                assert(seq![c] + seq![d] =~= seq![c, d]);
                assert(words(r).update(0, seq![c] + words(r)[0]) =~= seq![seq![c, d]]);
            }
        } else {
            assert(r[0] == rp[0]);
            assert(x[x.len() - 2] == rp.last());
            assert(r[r.len() - 2] == rp.last());
            if is_white_space(d) {
                assert(words(x) == wx);
                assert(words(r) == wr);
            } else if !is_white_space(rp.last()) {
                assert(words(x) == wx.update(wx.len() - 1, wx.last().push(d)));
                assert(words(r) == wr.update(wr.len() - 1, wr.last().push(d)));
                if !is_white_space(rp[0]) {
                    assert(wx == wr.update(0, seq![c] + wr[0]));
                    if wr.len() == 1 {
                        assert(seq![c] + wr[0].push(d) =~= (seq![c] + wr[0]).push(d));
                        assert(words(x) =~= words(r).update(0, seq![c] + words(r)[0]));
                    } else {
                        assert(words(x) =~= words(r).update(0, seq![c] + words(r)[0]));
                    }
                } else {
                    assert(wx == seq![seq![c]] + wr);
                    assert(words(x) =~= seq![seq![c]] + words(r));
                }
            } else {
                assert(words(x) == wx.push(seq![d]));
                assert(words(r) == wr.push(seq![d]));
                if !is_white_space(rp[0]) {
                    assert(words(x) =~= words(r).update(0, seq![c] + words(r)[0]));
                } else {
                    assert(words(x) =~= seq![seq![c]] + words(r));
                }
            }
        }
    }
}


/// Dropping the leading word of a text that starts with one drops exactly
/// its first word.
proof fn lemma_words_skip_word(u: Seq<char>)
    requires
        u.len() > 0,
        !is_white_space(u[0]),
    ensures
        words(skip_word(u)) == words(u).drop_first(),
    decreases u.len(),
{
    let c = u[0];
    let r = u.drop_first();
    assert(u =~= seq![c] + r);
    lemma_words_cons(c, r);
    assert(skip_word(u) == skip_word(r));
    assert(words(u) == words(seq![c] + r));
    if r.len() > 0 && !is_white_space(r[0]) {
        lemma_words_skip_word(r);
        assert(words(r).update(0, seq![c] + words(r)[0]).drop_first() =~= words(r).drop_first());
    } else {
        assert(skip_word(r) == r);
        assert((seq![seq![c]] + words(r)).drop_first() =~= words(r));
    }
}

/// What follows the first word of a line holds exactly the line's other
/// words, in order.
pub proof fn lemma_after_first_word_words(s: Seq<char>)
    requires
        words(s).len() > 0,
    ensures
        words(after_first_word(s)) == words(s).drop_first(),
{
    let k = lemma_trim_start_shape(s);
    lemma_words_trim_start(s);
    if k == s.len() {
        assert(blank_line(s));
        lemma_words_blank(s);
    }
    let u = trim_start(s);
    assert(u[0] == s[k]);
    lemma_words_skip_word(u);
}

/// Of a line with exactly two words, what follows the first word, trimmed,
/// is the second word.
pub proof fn lemma_second_word(s: Seq<char>)
    requires
        words(s).len() == 2,
    ensures
        trim(after_first_word(s)) == words(s)[1],
{
    lemma_after_first_word_words(s);
    let a = after_first_word(s);
    let t = trim(a);
    lemma_words_trim(a);
    lemma_trim_shape(a);
    assert(words(t).len() == 1);
    if t.len() == 0 {
        assert(t =~= Seq::<char>::empty());
        assert(words(t).len() == 0);
    }
    lemma_one_word_solid(t);
    lemma_words_solid(t);
    assert(words(t)[0] == t);
    assert(words(a)[0] == words(s)[1]);
}

} // verus!
