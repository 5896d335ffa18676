//! Character-level text utilities, each stated over the `Seq<char>` view of a string.

use vstd::prelude::*;

verus! {

// ---------------------------------------------------------------------------
// Character classes
// ---------------------------------------------------------------------------

/// The characters with the Unicode `White_Space` property, which is what
/// `char::is_whitespace` (and so `str::trim`) tests for.
pub open spec fn is_white_space(c: char) -> bool {
    let u = c as u32;
    ||| 0x09 <= u <= 0x0d
    ||| u == 0x20
    ||| u == 0x85
    ||| u == 0xa0
    ||| u == 0x1680
    ||| 0x2000 <= u <= 0x200a
    ||| u == 0x2028
    ||| u == 0x2029
    ||| u == 0x202f
    ||| u == 0x205f
    ||| u == 0x3000
}

/// Whether `c` is a Unicode white-space character.
pub fn char_is_white_space(c: char) -> (b: bool)
    ensures
        b == is_white_space(c),
{
    let u = c as u32;
    (0x09 <= u && u <= 0x0d) || u == 0x20 || u == 0x85 || u == 0xa0 || u == 0x1680 || (0x2000
        <= u && u <= 0x200a) || u == 0x2028 || u == 0x2029 || u == 0x202f || u == 0x205f || u
        == 0x3000
}

/// The class of characters that a trim removes: white space (`str::trim`)
/// or the line feed alone (`str::trim_matches('\n')`).
pub open spec fn trimmed_char(newline_only: bool, c: char) -> bool {
    if newline_only {
        c == '\n'
    } else {
        is_white_space(c)
    }
}

fn is_trimmed_char(newline_only: bool, c: char) -> (b: bool)
    ensures
        b == trimmed_char(newline_only, c),
{
    if newline_only {
        c == '\n'
    } else {
        char_is_white_space(c)
    }
}

// ---------------------------------------------------------------------------
// Conversions between strings and characters
// ---------------------------------------------------------------------------

/// The characters of `s`, in order.
pub fn chars_of(s: &str) -> (v: Vec<char>)
    ensures
        v@ == s@,
{
    let mut v: Vec<char> = Vec::new();
    for c in it: s.chars()
        invariant
            v@ == it.seq().take(it.index() as int),
            it.seq() == s@,
    {
        v.push(c);
    }
    v
}

/// Appends one character to a string (`String::push`).
#[verifier::external_body]
pub(crate) fn push_char(s: &mut String, c: char)
    ensures
        final(s)@ == old(s)@.push(c),
{
    s.push(c);
}

/// Removes the last character of a string and returns it, or returns `None`
/// and leaves the string as it is when it is empty (`String::pop`).
#[verifier::external_body]
pub(crate) fn pop_char(s: &mut String) -> (r: Option<char>)
    ensures
        old(s)@.len() == 0 ==> r is None && final(s)@ == old(s)@,
        old(s)@.len() > 0 ==> r == Some(old(s)@.last()) && final(s)@ == old(s)@.drop_last(),
{
    s.pop()
}

/// A new string holding `s`.
pub fn string_of(s: &str) -> (r: String)
    ensures
        r@ == s@,
{
    let mut r = String::new();
    r.append(s);
    r
}

/// `c` in lower case, for the ASCII letters `A` to `Z`; any other character unchanged.
pub open spec fn ascii_lower(c: char) -> char {
    if 'A' <= c && c <= 'Z' {
        ((c as u32) + 32) as char
    } else {
        c
    }
}

/// Every character of `s` is ASCII.
pub open spec fn is_ascii_text(s: Seq<char>) -> bool {
    forall|i: int| 0 <= i < s.len() ==> (#[trigger] s[i] as u32) < 128
}

/// `s` with its ASCII letters in lower case.
pub open spec fn ascii_lowercase(s: Seq<char>) -> Seq<char> {
    s.map_values(|c: char| ascii_lower(c))
}

/// Lower-casing the ASCII letters of a prefix of a text gives a prefix of the
/// lower-cased text; a prefix of an ASCII text is ASCII.
pub proof fn lemma_ascii_lowercase_prefix(a: Seq<char>, b: Seq<char>)
    requires
        a.is_prefix_of(b),
    ensures
        ascii_lowercase(a).is_prefix_of(ascii_lowercase(b)),
        is_ascii_text(b) ==> is_ascii_text(a),
{
    assert forall|i: int| 0 <= i < a.len() implies #[trigger] ascii_lowercase(a)[i]
        == ascii_lowercase(b)[i] by {
        assert(a[i] == b[i]);
    }
    if is_ascii_text(b) {
        assert forall|i: int| 0 <= i < a.len() implies (#[trigger] a[i] as u32) < 128 by {
            assert(a[i] == b[i]);
        }
    }
}

/// The lower-case mapping of a character sequence, as `str::to_lowercase` computes it
/// from the Unicode tables of the standard library.
pub uninterp spec fn lowercase(s: Seq<char>) -> Seq<char>;

/// Calls `str::to_lowercase`. Its result is named [`lowercase`] of the argument. Two
/// facts are stated of it: the empty string maps to the empty string, and an ASCII
/// string maps to itself with `A`..`Z` made `a`..`z` (the Unicode lower-case mapping
/// of the ASCII characters). The mapping of other characters (the Unicode tables,
/// the final-sigma rule) is not written out here.
#[verifier::external_body]
pub(crate) fn to_lowercase(s: &str) -> (r: String)
    ensures
        r@ == lowercase(s@),
        s@.len() == 0 ==> r@.len() == 0,
        is_ascii_text(s@) ==> r@ == ascii_lowercase(s@),
{
    s.to_lowercase()
}

// ---------------------------------------------------------------------------
// Trimming
// ---------------------------------------------------------------------------

/// `s` without its leading characters of the class.
pub open spec fn trim_start(newline_only: bool, s: Seq<char>) -> Seq<char>
    decreases s.len(),
{
    if s.len() > 0 && trimmed_char(newline_only, s[0]) {
        trim_start(newline_only, s.drop_first())
    } else {
        s
    }
}

/// `s` without its trailing characters of the class.
pub open spec fn trim_end(newline_only: bool, s: Seq<char>) -> Seq<char>
    decreases s.len(),
{
    if s.len() > 0 && trimmed_char(newline_only, s.last()) {
        trim_end(newline_only, s.drop_last())
    } else {
        s
    }
}

/// `s` without its leading and trailing characters of the class.
pub open spec fn trim(newline_only: bool, s: Seq<char>) -> Seq<char> {
    trim_end(newline_only, trim_start(newline_only, s))
}

/// `r` is `s` with characters of the class removed from both ends, and no
/// more: a slice of `s` that all the characters cut off belong to the class,
/// and whose own first and last characters do not.
pub open spec fn is_trim_of(newline_only: bool, s: Seq<char>, r: Seq<char>) -> bool {
    exists|a: int, b: int|
        {
            &&& 0 <= a <= b <= s.len()
            &&& r == s.subrange(a, b)
            &&& (forall|i: int| 0 <= i < a ==> trimmed_char(newline_only, #[trigger] s[i]))
            &&& (forall|i: int| b <= i < s.len() ==> trimmed_char(newline_only, #[trigger] s[i]))
            &&& (r.len() > 0 ==> !trimmed_char(newline_only, r[0]) && !trimmed_char(
                newline_only,
                r.last(),
            ))
        }
}

fn trim_by<'a>(s: &'a str, newline_only: bool) -> (r: &'a str)
    ensures
        r@ == trim(newline_only, s@),
        is_trim_of(newline_only, s@, r@),
{
    let v = chars_of(s);
    let n = v.len();
    let mut a: usize = 0;
    assert(s@.subrange(0, n as int) =~= s@);
    while a < n && is_trimmed_char(newline_only, v[a])
        invariant
            v@ == s@,
            n == v@.len(),
            a <= n,
            trim_start(newline_only, s@) == trim_start(newline_only, s@.subrange(a as int, n as int)),
            forall|i: int| 0 <= i < a ==> trimmed_char(newline_only, #[trigger] s@[i]),
        decreases n - a,
    {
        assert(s@.subrange(a as int, n as int).drop_first() =~= s@.subrange(a + 1, n as int));
        a = a + 1;
    }
    assert(trim_start(newline_only, s@) == s@.subrange(a as int, n as int));
    let mut b: usize = n;
    while b > a && is_trimmed_char(newline_only, v[b - 1])
        invariant
            v@ == s@,
            n == v@.len(),
            a <= b <= n,
            trim(newline_only, s@) == trim_end(newline_only, s@.subrange(a as int, b as int)),
            forall|i: int| 0 <= i < a ==> trimmed_char(newline_only, #[trigger] s@[i]),
            forall|i: int| b <= i < n ==> trimmed_char(newline_only, #[trigger] s@[i]),
            a == n || !trimmed_char(newline_only, s@[a as int]),
        decreases b - a,
    {
        assert(s@.subrange(a as int, b as int).drop_last() =~= s@.subrange(a as int, b - 1));
        b = b - 1;
    }
    let r = s.substring_char(a, b);
    assert(is_trim_of(newline_only, s@, r@)) by {
        if r@.len() > 0 {
            assert(r@[0] == s@[a as int]);
            assert(r@.last() == s@[b - 1]);
        }
    }
    r
}

/// `s` without leading and trailing white space (`str::trim`).
pub fn trim_white_space(s: &str) -> (r: &str)
    ensures
        r@ == trim(false, s@),
        is_trim_of(false, s@, r@),
{
    trim_by(s, false)
}

/// `s` without leading and trailing line feeds (`str::trim_matches('\n')`).
pub fn trim_newlines(s: &str) -> (r: &str)
    ensures
        r@ == trim(true, s@),
        is_trim_of(true, s@, r@),
{
    trim_by(s, true)
}

// ---------------------------------------------------------------------------
// Substrings
// ---------------------------------------------------------------------------

/// `needle` occurs in `hay` starting at position `i`.
pub open spec fn occurs_at(hay: Seq<char>, needle: Seq<char>, i: int) -> bool {
    0 <= i && i + needle.len() <= hay.len() && hay.subrange(i, i + needle.len()) == needle
}

/// `needle` occurs somewhere in `hay` (the empty sequence occurs in every sequence).
pub open spec fn contains_seq(hay: Seq<char>, needle: Seq<char>) -> bool {
    exists|i: int| occurs_at(hay, needle, i)
}

/// Whether `needle` is a substring of `hay` (`str::contains` with a string pattern).
pub fn contains_str(hay: &str, needle: &str) -> (b: bool)
    ensures
        b == contains_seq(hay@, needle@),
{
    let h = chars_of(hay);
    let n = chars_of(needle);
    if n.len() > h.len() {
        assert forall|i: int| !occurs_at(hay@, needle@, i) by {}
        return false;
    }
    if n.len() == 0 {
        assert(hay@.subrange(0, 0) =~= needle@);
        assert(occurs_at(hay@, needle@, 0));
        return true;
    }
    let last = h.len() - n.len();
    let mut i: usize = 0;
    while i <= last
        invariant
            h@ == hay@,
            n@ == needle@,
            last == h.len() - n.len(),
            h.len() == h@.len(),
            n.len() == n@.len(),
            n@.len() <= h@.len(),
            n@.len() > 0,
            i <= last + 1,
            forall|k: int| 0 <= k < i ==> !occurs_at(hay@, needle@, k),
        decreases last + 1 - i,
    {
        let mut j: usize = 0;
        while j < n.len() && h[i + j] == n[j]
            invariant
                h@ == hay@,
                n@ == needle@,
                i <= last,
                last == h.len() - n.len(),
                h.len() == h@.len(),
                n.len() == n@.len(),
                n@.len() <= h@.len(),
                j <= n@.len(),
                forall|k: int| 0 <= k < j ==> h@[i + k] == n@[k],
            decreases n@.len() - j,
        {
            j = j + 1;
        }
        if j == n.len() {
            assert(hay@.subrange(i as int, i + needle@.len()) =~= needle@);
            assert(occurs_at(hay@, needle@, i as int));
            return true;
        }
        assert(!occurs_at(hay@, needle@, i as int)) by {
            if hay@.subrange(i as int, i + needle@.len()) == needle@ {
                assert(hay@.subrange(i as int, i + needle@.len())[j as int] == h@[i + j]);
            }
        }
        i = i + 1;
    }
    assert forall|k: int| !occurs_at(hay@, needle@, k) by {}
    false
}

// ---------------------------------------------------------------------------
// Lines
// ---------------------------------------------------------------------------

/// `s` split at every line feed: one more piece than there are line feeds.
pub open spec fn split_newlines(s: Seq<char>) -> Seq<Seq<char>>
    decreases s.len(),
{
    if s.len() == 0 {
        seq![Seq::empty()]
    } else if s.last() == '\n' {
        split_newlines(s.drop_last()).push(Seq::empty())
    } else {
        let p = split_newlines(s.drop_last());
        p.update(p.len() - 1, p.last().push(s.last()))
    }
}

/// A line without the carriage return that ended it, if any.
pub open spec fn strip_cr(line: Seq<char>) -> Seq<char> {
    if line.len() > 0 && line.last() == '\r' {
        line.drop_last()
    } else {
        line
    }
}

/// The lines of `s` as `str::lines` yields them: `s` is split at each `\n`, a
/// `\r` just before a `\n` is dropped, and a final line feed ends the last line
/// rather than starting an empty one (so the empty string has no lines); a last
/// line that no line feed ends is kept as it is.
pub open spec fn lines_of(s: Seq<char>) -> Seq<Seq<char>> {
    let pieces = split_newlines(s);
    let ended = pieces.drop_last().map_values(|l: Seq<char>| strip_cr(l));
    if s.len() == 0 || s.last() == '\n' {
        ended
    } else {
        ended.push(pieces.last())
    }
}

proof fn lemma_split_newlines_len(s: Seq<char>)
    ensures
        split_newlines(s).len() >= 1,
    decreases s.len(),
{
    if s.len() > 0 {
        lemma_split_newlines_len(s.drop_last());
    }
}

proof fn lemma_split_newlines_two(s: Seq<char>)
    requires
        s.contains('\n'),
    ensures
        split_newlines(s).len() >= 2,
    decreases s.len(),
{
    if s.last() != '\n' {
        let i = choose|i: int| 0 <= i < s.len() && s[i] == '\n';
        assert(s.drop_last()[i] == '\n');
        lemma_split_newlines_two(s.drop_last());
    } else {
        lemma_split_newlines_len(s.drop_last());
    }
}

/// Lines joined back together with line feeds between them.
pub open spec fn join_lines(ls: Seq<Seq<char>>) -> Seq<char>
    decreases ls.len(),
{
    if ls.len() == 0 {
        Seq::empty()
    } else if ls.len() == 1 {
        ls[0]
    } else {
        join_lines(ls.drop_last()) + seq!['\n'] + ls.last()
    }
}

proof fn lemma_join_push_char(p: Seq<Seq<char>>, c: char)
    requires
        p.len() >= 1,
    ensures
        join_lines(p.update(p.len() - 1, p.last().push(c))) == join_lines(p).push(c),
{
    let q = p.update(p.len() - 1, p.last().push(c));
    if p.len() > 1 {
        assert(q.drop_last() =~= p.drop_last());
    }
    assert(join_lines(q) =~= join_lines(p).push(c));
}

proof fn lemma_split_newlines_join(s: Seq<char>)
    ensures
        join_lines(split_newlines(s)) == s,
        forall|k: int, x: char|
            0 <= k < split_newlines(s).len() && #[trigger] split_newlines(s)[k].contains(x) ==> x
                != '\n' && s.contains(x),
    decreases s.len(),
{
    if s.len() > 0 {
        let t = s.drop_last();
        lemma_split_newlines_join(t);
        lemma_split_newlines_len(t);
        let p = split_newlines(t);
        if s.last() == '\n' {
            let q = p.push(Seq::empty());
            assert(q.drop_last() =~= p);
            assert(join_lines(q) =~= s);
            assert forall|k: int, x: char|
                0 <= k < q.len() && #[trigger] q[k].contains(x) implies x != '\n' && s.contains(x) by {
                if k < p.len() {
                    assert(q[k] == p[k]);
                    let j = choose|j: int| 0 <= j < t.len() && t[j] == x;
                    assert(s[j] == x);
                }
            }
        } else {
            lemma_join_push_char(p, s.last());
            assert(t.push(s.last()) =~= s);
            let q = p.update(p.len() - 1, p.last().push(s.last()));
            assert forall|k: int, x: char|
                0 <= k < q.len() && #[trigger] q[k].contains(x) implies x != '\n' && s.contains(x) by {
                if k < p.len() - 1 {
                    assert(q[k] == p[k]);
                    let j = choose|j: int| 0 <= j < t.len() && t[j] == x;
                    assert(s[j] == x);
                } else {
                    let i = choose|i: int| 0 <= i < q[k].len() && q[k][i] == x;
                    if i < p.last().len() {
                        assert(p[k][i] == x);
                        assert(p[k].contains(x));
                        let j = choose|j: int| 0 <= j < t.len() && t[j] == x;
                        assert(s[j] == x);
                    } else {
                        assert(x == s.last());
                        assert(s[s.len() - 1] == x);
                    }
                }
            }
        }
    }
}

/// The lines of a text hold no line feed, and, when the text holds no carriage
/// return, joining them with line feeds gives the text back without its final
/// line feed. The empty text has no lines, and a text has a line exactly when
/// it is not empty.
pub proof fn lemma_lines_join(s: Seq<char>)
    ensures
        forall|k: int| 0 <= k < lines_of(s).len() ==> !(#[trigger] lines_of(s)[k]).contains('\n'),
        !s.contains('\r') ==> join_lines(lines_of(s)) == (if s.len() > 0 && s.last() == '\n' {
            s.drop_last()
        } else {
            s
        }),
        (lines_of(s).len() == 0) == (s.len() == 0),
{
    lemma_split_newlines_join(s);
    lemma_split_newlines_len(s);
    let pieces = split_newlines(s);
    let ended = pieces.drop_last().map_values(|l: Seq<char>| strip_cr(l));
    assert forall|k: int| 0 <= k < lines_of(s).len() implies !(#[trigger] lines_of(s)[k]).contains('\n') by {
        if k < ended.len() {
            assert(ended[k] == strip_cr(pieces[k]));
            if strip_cr(pieces[k]).contains('\n') {
                let i = choose|i: int| 0 <= i < strip_cr(pieces[k]).len() && strip_cr(pieces[k])[i] == '\n';
                assert(pieces[k][i] == '\n');
                assert(pieces[k].contains('\n'));
            }
        } else {
            assert(lines_of(s)[k] == pieces.last());
            assert(pieces.last() == pieces[pieces.len() - 1]);
        }
    }
    if !s.contains('\r') {
        assert forall|k: int| 0 <= k < pieces.len() - 1 implies strip_cr(#[trigger] pieces[k]) == pieces[k] by {
            if pieces[k].len() > 0 && pieces[k].last() == '\r' {
                assert(pieces[k].contains('\r'));
            }
        }
        assert(ended =~= pieces.drop_last());
        if s.len() > 0 && s.last() == '\n' {
            assert(pieces == split_newlines(s.drop_last()).push(Seq::empty()));
            assert(pieces.drop_last() =~= split_newlines(s.drop_last()));
            lemma_split_newlines_join(s.drop_last());
        } else if s.len() > 0 {
            assert(ended.push(pieces.last()) =~= pieces);
        } else {
            assert(ended.len() == 0);
        }
    }
    if s.len() > 0 && s.last() == '\n' {
        lemma_split_newlines_len(s.drop_last());
    }
}

/// A text with a line feed has at least one line.
pub proof fn lemma_multiline_has_lines(s: Seq<char>)
    requires
        s.contains('\n'),
    ensures
        lines_of(s).len() >= 1,
{
    lemma_split_newlines_two(s);
}

/// The lines of `s` (`str::lines`), each a slice of `s`.
pub fn lines_str<'a>(s: &'a str) -> (r: Vec<&'a str>)
    ensures
        r@.len() == lines_of(s@).len(),
        forall|k: int| 0 <= k < r@.len() ==> #[trigger] r@[k]@ == lines_of(s@)[k],
        forall|k: int| 0 <= k < r@.len() ==> !(#[trigger] r@[k]@).contains('\n'),
        (r@.len() == 0) == (s@.len() == 0),
        !s@.contains('\r') ==> join_lines(lines_of(s@)) == (if s@.len() > 0 && s@.last() == '\n' {
            s@.drop_last()
        } else {
            s@
        }),
{
    proof {
        lemma_lines_join(s@);
    }
    let v = chars_of(s);
    let n = v.len();
    let mut out: Vec<&'a str> = Vec::new();
    let ghost mut raw: Seq<Seq<char>> = Seq::empty();
    let mut start: usize = 0;
    let mut i: usize = 0;
    assert(s@.take(0) =~= Seq::<char>::empty());
    while i < n
        invariant
            v@ == s@,
            n == s@.len(),
            start <= i <= n,
            split_newlines(s@.take(i as int)) == raw.push(s@.subrange(start as int, i as int)),
            out@.len() == raw.len(),
            forall|k: int| 0 <= k < raw.len() ==> #[trigger] out@[k]@ == strip_cr(raw[k]),
            i > 0 && s@[i - 1] == '\n' ==> start == i,
            start == i ==> i == 0 || s@[i - 1] == '\n',
        decreases n - i,
    {
        let c = v[i];
        let ghost pieces = raw.push(s@.subrange(start as int, i as int));
        assert(s@.take(i + 1).drop_last() =~= s@.take(i as int));
        assert(s@.take(i + 1).last() == c);
        if c == '\n' {
            let mut end = i;
            if end > start && v[end - 1] == '\r' {
                end = end - 1;
            }
            let line = s.substring_char(start, end);
            proof {
                let piece = s@.subrange(start as int, i as int);
                if i > start && s@[i - 1] == '\r' {
                    assert(piece.drop_last() =~= s@.subrange(start as int, end as int));
                } else {
                    assert(piece =~= s@.subrange(start as int, end as int));
                }
                raw = raw.push(piece);
                assert(s@.subrange(i + 1, i + 1) =~= Seq::<char>::empty());
            }
            out.push(line);
            start = i + 1;
        } else {
            proof {
                lemma_split_newlines_len(s@.take(i as int));
                assert(s@.subrange(start as int, i as int).push(c) =~= s@.subrange(start as int, i + 1));
                assert(pieces.update(pieces.len() - 1, pieces.last().push(c)) =~= raw.push(
                    s@.subrange(start as int, i + 1),
                ));
            }
        }
        i = i + 1;
    }
    assert(s@.take(n as int) =~= s@);
    proof {
        lemma_split_newlines_len(s@);
        assert(raw =~= split_newlines(s@).drop_last());
    }
    if start < n {
        let line = s.substring_char(start, n);
        out.push(line);
    }
    assert forall|k: int| 0 <= k < out@.len() implies !(#[trigger] out@[k]@).contains('\n') by {
        assert(out@[k]@ == lines_of(s@)[k]);
    }
    out
}

// ---------------------------------------------------------------------------
// Numbers and padding
// ---------------------------------------------------------------------------

/// The decimal digit for `d` in `0..10`.
pub open spec fn digit_char(d: nat) -> char {
    if d == 0 {
        '0'
    } else if d == 1 {
        '1'
    } else if d == 2 {
        '2'
    } else if d == 3 {
        '3'
    } else if d == 4 {
        '4'
    } else if d == 5 {
        '5'
    } else if d == 6 {
        '6'
    } else if d == 7 {
        '7'
    } else if d == 8 {
        '8'
    } else {
        '9'
    }
}

/// The decimal notation of `n`, without leading zeros (`format!("{}", n)`).
pub open spec fn decimal(n: nat) -> Seq<char>
    decreases n,
{
    if n < 10 {
        seq![digit_char(n)]
    } else {
        decimal(n / 10).push(digit_char(n % 10))
    }
}

/// The number that a sequence of decimal digits denotes.
pub open spec fn digits_value(s: Seq<char>) -> int
    decreases s.len(),
{
    if s.len() == 0 {
        0
    } else {
        digits_value(s.drop_last()) * 10 + ((s.last() as u32) - 48)
    }
}

/// The decimal notation of `n` denotes `n`, consists of digits only, and has
/// no leading zero.
pub proof fn lemma_decimal_value(n: nat)
    ensures
        digits_value(decimal(n)) == n,
        forall|i: int| 0 <= i < decimal(n).len() ==> '0' <= #[trigger] decimal(n)[i] <= '9',
        decimal(n).len() >= 1,
        n > 0 ==> decimal(n)[0] != '0',
    decreases n,
{
    let d = n % 10;
    assert((digit_char(d) as u32) - 48 == d) by {
        assert(0 <= d < 10);
    }
    if n >= 10 {
        lemma_decimal_value(n / 10);
        let t = decimal(n / 10);
        assert(decimal(n).drop_last() =~= t);
        assert(n == (n / 10) * 10 + d);
        assert forall|i: int| 0 <= i < decimal(n).len() implies '0' <= #[trigger] decimal(n)[i] <= '9' by {
            if i < t.len() {
                assert(decimal(n)[i] == t[i]);
            }
        }
        assert(decimal(n)[0] == t[0]);
        assert(decimal(n).last() == digit_char(d));
        assert(digits_value(decimal(n)) == digits_value(t) * 10 + ((digit_char(d) as u32) - 48));
    } else {
        assert(decimal(n).drop_last() =~= Seq::<char>::empty());
        assert(digits_value(Seq::<char>::empty()) == 0);
        assert(decimal(n).last() == digit_char(d));
    }
}

/// The decimal digit for `d`.
pub fn digit(d: u64) -> (c: char)
    requires
        d < 10,
    ensures
        c == digit_char(d as nat),
{
    if d == 0 {
        '0'
    } else if d == 1 {
        '1'
    } else if d == 2 {
        '2'
    } else if d == 3 {
        '3'
    } else if d == 4 {
        '4'
    } else if d == 5 {
        '5'
    } else if d == 6 {
        '6'
    } else if d == 7 {
        '7'
    } else if d == 8 {
        '8'
    } else {
        '9'
    }
}

/// Appends the decimal notation of `n` to `s`.
pub fn push_decimal(s: &mut String, n: u64)
    ensures
        final(s)@ == old(s)@ + decimal(n as nat),
    decreases n,
{
    if n >= 10 {
        push_decimal(s, n / 10);
    }
    push_char(s, digit(n % 10));
    assert(decimal(n as nat) =~= if n < 10 {
        seq![digit_char(n as nat)]
    } else {
        decimal((n / 10) as nat).push(digit_char((n % 10) as nat))
    });
}

/// `s` followed by as many spaces as it takes to make it `width` characters long
/// (`format!("{:<width$}", s)`).
pub open spec fn pad_right(s: Seq<char>, width: nat) -> Seq<char> {
    if s.len() >= width {
        s
    } else {
        s + Seq::new((width - s.len()) as nat, |i: int| ' ')
    }
}

/// Appends `s`, padded with spaces to `width` characters, to `out`.
pub fn push_padded(out: &mut String, s: &str, width: usize)
    ensures
        final(out)@ == old(out)@ + pad_right(s@, width as nat),
{
    out.append(s);
    let len: usize = s.unicode_len();
    let mut k: usize = len;
    assert(s@ + Seq::new(0, |i: int| ' ') =~= s@);
    while k < width
        invariant
            len == s@.len(),
            len <= k,
            k <= width || k == len,
            out@ == old(out)@ + s@ + Seq::new((k - len) as nat, |i: int| ' '),
        decreases width - k,
    {
        push_char(out, ' ');
        k = k + 1;
        assert(out@ =~= old(out)@ + s@ + Seq::new((k - len) as nat, |i: int| ' '));
    }
    assert(out@ =~= old(out)@ + pad_right(s@, width as nat));
}

} // verus!
