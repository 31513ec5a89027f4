use vstd::prelude::*;
use vstd::string::*;

verus! {

// ---------------------------------------------------------------------------
// Character sequences: the model every string of this crate is stated over.
// ---------------------------------------------------------------------------

/// `n` copies of `c`.
pub open spec fn repeat(c: char, n: nat) -> Seq<char> {
    Seq::new(n, |_i: int| c)
}

/// How many characters must be added to a text of `len` characters to make
/// it `width` characters wide (none when it is already as wide or wider).
pub open spec fn fill(len: nat, width: nat) -> nat {
    if len < width {
        (width - len) as nat
    } else {
        0
    }
}

/// The decimal digit for `d` (which is below ten).
pub open spec fn digit(d: nat) -> char {
    seq!['0', '1', '2', '3', '4', '5', '6', '7', '8', '9'][d as int]
}

/// The decimal notation of `n`: its digits, most significant first,
/// with no leading zero.
pub open spec fn decimal(n: nat) -> Seq<char>
    decreases n,
{
    if n < 10 {
        seq![digit(n)]
    } else {
        decimal(n / 10).push(digit(n % 10))
    }
}

/// `value` cut down to at most `width` characters: unchanged when it fits,
/// empty when not even one character and the ellipsis fit, else its first
/// `width - 1` characters followed by `…`.
pub open spec fn shortened(value: Seq<char>, width: nat) -> Seq<char> {
    if value.len() <= width {
        value
    } else if width < 2 {
        Seq::empty()
    } else {
        value.take(width - 1).push('…')
    }
}

/// The Unicode `White_Space` characters, which `char::is_whitespace` accepts.
pub open spec fn is_space(c: char) -> bool {
    ||| '\u{9}' <= c <= '\u{d}'
    ||| c == ' '
    ||| c == '\u{85}'
    ||| c == '\u{a0}'
    ||| c == '\u{1680}'
    ||| '\u{2000}' <= c <= '\u{200a}'
    ||| c == '\u{2028}'
    ||| c == '\u{2029}'
    ||| c == '\u{202f}'
    ||| c == '\u{205f}'
    ||| c == '\u{3000}'
}

/// `s` without the white space at its start.
pub open spec fn trim_start_space(s: Seq<char>) -> Seq<char>
    decreases s.len(),
{
    if s.len() > 0 && is_space(s[0]) {
        trim_start_space(s.drop_first())
    } else {
        s
    }
}

/// `s` without the white space at its end.
pub open spec fn trim_end_space(s: Seq<char>) -> Seq<char>
    decreases s.len(),
{
    if s.len() > 0 && is_space(s.last()) {
        trim_end_space(s.drop_last())
    } else {
        s
    }
}

/// `s` without leading and trailing white space (what `str::trim` gives).
pub open spec fn trimmed(s: Seq<char>) -> Seq<char> {
    trim_end_space(trim_start_space(s))
}

/// `s` without the copies of `c` at its start.
pub open spec fn trim_start_char(s: Seq<char>, c: char) -> Seq<char>
    decreases s.len(),
{
    if s.len() > 0 && s[0] == c {
        trim_start_char(s.drop_first(), c)
    } else {
        s
    }
}

/// `s` without the copies of `c` at its end.
pub open spec fn trim_end_char(s: Seq<char>, c: char) -> Seq<char>
    decreases s.len(),
{
    if s.len() > 0 && s.last() == c {
        trim_end_char(s.drop_last(), c)
    } else {
        s
    }
}

/// `s` without leading and trailing copies of `c` (`str::trim_matches`).
pub open spec fn trimmed_of(s: Seq<char>, c: char) -> Seq<char> {
    trim_end_char(trim_start_char(s, c), c)
}

/// Where `c` first occurs in `s`, or the length of `s` when it does not.
pub open spec fn first_index(s: Seq<char>, c: char) -> nat
    decreases s.len(),
{
    if s.len() == 0 {
        0
    } else if s[0] == c {
        0
    } else {
        1 + first_index(s.drop_first(), c)
    }
}

/// `s` without one carriage return at its end.
pub open spec fn strip_cr(s: Seq<char>) -> Seq<char> {
    if s.len() > 0 && s.last() == '\r' {
        s.drop_last()
    } else {
        s
    }
}

/// The lines of `s`, as `str::lines` yields them: split at each `\n`, a `\r`
/// right before that `\n` dropped, and no empty line after a final `\n`.
pub open spec fn split_lines(s: Seq<char>) -> Seq<Seq<char>>
    decreases s.len(),
{
    if s.len() == 0 {
        Seq::empty()
    } else {
        let e = first_index(s, '\n');
        if e >= s.len() {
            seq![s]
        } else {
            seq![strip_cr(s.take(e as int))] + split_lines(s.skip(e + 1 as int))
        }
    }
}

/// `p` occurs in `s` at position `i`.
pub open spec fn occurs_at(s: Seq<char>, p: Seq<char>, i: int) -> bool {
    0 <= i && i + p.len() <= s.len() && s.subrange(i, i + p.len()) == p
}

/// `p` occurs somewhere in `s`.
pub open spec fn contains(s: Seq<char>, p: Seq<char>) -> bool {
    exists|i: int| occurs_at(s, p, i)
}

/// The first position at or after `from` where `p` occurs in `s`, if any.
pub open spec fn find_from(s: Seq<char>, p: Seq<char>, from: int) -> Option<nat>
    decreases s.len() + 1 - from,
{
    if from < 0 || from + p.len() > s.len() {
        None
    } else if occurs_at(s, p, from) {
        Some(from as nat)
    } else {
        find_from(s, p, from + 1)
    }
}

/// The first position where `p` occurs in `s`, if any (`str::find`).
pub open spec fn find(s: Seq<char>, p: Seq<char>) -> Option<nat> {
    find_from(s, p, 0)
}

// ---------------------------------------------------------------------------
// Lemmas on the model.
// ---------------------------------------------------------------------------

pub proof fn lemma_first_index_bound(s: Seq<char>, c: char)
    ensures
        first_index(s, c) <= s.len(),
        first_index(s, c) < s.len() ==> s[first_index(s, c) as int] == c,
        forall|j: int| 0 <= j < first_index(s, c) ==> s[j] != c,
    decreases s.len(),
{
    if s.len() > 0 && s[0] != c {
        lemma_first_index_bound(s.drop_first(), c);
        assert forall|j: int| 0 <= j < first_index(s, c) implies s[j] != c by {
            if j > 0 {
                assert(s[j] == s.drop_first()[j - 1]);
            }
        }
    }
}

/// Stepping past a character that is not `c` moves `first_index` by one.
pub proof fn lemma_first_index_step(s: Seq<char>, i: int, c: char)
    requires
        0 <= i < s.len(),
        s[i] != c,
    ensures
        first_index(s.skip(i), c) == 1 + first_index(s.skip(i + 1), c),
{
    assert(s.skip(i).drop_first() =~= s.skip(i + 1));
}

/// `find_from` finds exactly the first occurrence at or after `from`.
pub proof fn lemma_find_from(s: Seq<char>, p: Seq<char>, from: int)
    requires
        0 <= from,
    ensures
        find_from(s, p, from) matches Some(k) ==> from <= k && occurs_at(s, p, k as int) && (
        forall|j: int| from <= j < k ==> !occurs_at(s, p, j)),
        find_from(s, p, from) is None ==> forall|j: int| from <= j ==> !occurs_at(s, p, j),
    decreases s.len() + 1 - from,
{
    if from + p.len() > s.len() {
    } else if occurs_at(s, p, from) {
    } else {
        lemma_find_from(s, p, from + 1);
    }
}

/// `find` succeeds exactly when `p` occurs in `s`.
pub proof fn lemma_find_contains(s: Seq<char>, p: Seq<char>)
    ensures
        find(s, p) is Some <==> contains(s, p),
        find(s, p) matches Some(k) ==> occurs_at(s, p, k as int),
{
    lemma_find_from(s, p, 0);
}

/// One step of `split_lines` on the text that starts at `pos`: the line that
/// starts there ends at `end` (a `\r` before the `\n` left out) and the next
/// one starts at `next`.
pub proof fn lemma_split_step(s: Seq<char>, pos: int, e: int)
    requires
        0 <= pos < s.len(),
        e == pos + first_index(s.skip(pos), '\n'),
    ensures
        pos <= e <= s.len(),
        e < s.len() ==> split_lines(s.skip(pos)) == seq![strip_cr(s.subrange(pos, e))]
            + split_lines(s.skip(e + 1)),
        e == s.len() ==> split_lines(s.skip(pos)) == seq![s.subrange(pos, e)],
{
    let t = s.skip(pos);
    lemma_first_index_bound(t, '\n');
    if e < s.len() {
        assert(t.take(e - pos) =~= s.subrange(pos, e));
        assert(t.skip(e - pos + 1) =~= s.skip(e + 1));
    } else {
        assert(t =~= s.subrange(pos, e));
    }
}

/// A shortened value never has more than `width` characters, and is the
/// value itself when that fits; a value that does not fit is cut only as far
/// as needed: it fills the width with its first `width - 1` characters and
/// an ellipsis (or is empty when fewer than two columns are left).
pub proof fn lemma_shortened_len(value: Seq<char>, width: nat)
    ensures
        shortened(value, width).len() <= width,
        value.len() <= width ==> shortened(value, width) == value,
        value.len() > width && width >= 2 ==> {
            let s = shortened(value, width);
            &&& s.len() == width
            &&& s.take(width - 1) == value.take(width - 1)
            &&& s.last() == '…'
        },
        value.len() > width && width < 2 ==> shortened(value, width).len() == 0,
{
    if value.len() > width && width >= 2 {
        let s = shortened(value, width);
        assert(s.take(width - 1) =~= value.take(width - 1));
    }
}

/// Trimming the end never makes a text longer, and keeps a prefix of it.
pub proof fn lemma_trim_end_space_len(s: Seq<char>)
    ensures
        trim_end_space(s).len() <= s.len(),
        trim_end_space(s) == s.take(trim_end_space(s).len() as int),
    decreases s.len(),
{
    if s.len() > 0 && is_space(s.last()) {
        lemma_trim_end_space_len(s.drop_last());
        assert(s.drop_last().take(trim_end_space(s).len() as int) =~= s.take(
            trim_end_space(s).len() as int,
        ));
    } else {
        assert(s.take(s.len() as int) =~= s);
    }
}

pub proof fn lemma_split_empty(s: Seq<char>)
    requires
        s.len() == 0,
    ensures
        split_lines(s) == Seq::<Seq<char>>::empty(),
{
}

// ---------------------------------------------------------------------------
// Trusted bridges to std.
// ---------------------------------------------------------------------------

/// Appends one character to a string (`String::push`).
#[verifier::external_body]
pub(crate) fn push_char(s: &mut String, c: char)
    ensures
        final(s)@ == old(s)@.push(c),
{
    s.push(c);
}

/// Whether `c` is white space: one of the Unicode `White_Space` characters
/// (what `char::is_whitespace` accepts).
pub fn char_is_space(c: char) -> (b: bool)
    ensures
        b == is_space(c),
{
    ('\u{9}' <= c && c <= '\u{d}') || c == ' ' || c == '\u{85}' || c == '\u{a0}' || c
        == '\u{1680}' || ('\u{2000}' <= c && c <= '\u{200a}') || c == '\u{2028}' || c
        == '\u{2029}' || c == '\u{202f}' || c == '\u{205f}' || c == '\u{3000}'
}

// ---------------------------------------------------------------------------
// Executable helpers.
// ---------------------------------------------------------------------------

/// A copy of `s` as an owned string.
pub fn copy_str(s: &str) -> (r: String)
    ensures
        r@ == s@,
{
    String::from_str(s)
}

/// At most the first `n` characters of `s`.
pub open spec fn cut(s: Seq<char>, n: nat) -> Seq<char> {
    if s.len() <= n {
        s
    } else {
        s.take(n as int)
    }
}

/// At most the first `n` characters of `s`, without an ellipsis.
pub fn cut_to(s: &str, n: usize) -> (r: String)
    ensures
        r@ == cut(s@, n as nat),
        r@.len() <= n,
{
    let len = s.unicode_len();
    if len <= n {
        copy_str(s)
    } else {
        copy_str(s.substring_char(0, n))
    }
}

/// The characters of `s`, in order.
pub fn chars_of(s: &str) -> (v: Vec<char>)
    ensures
        v@ == s@,
{
    let mut v: Vec<char> = Vec::new();
    for c in it: s.chars()
        invariant
            v@ == it.seq().take(it.index() as int),
    {
        v.push(c);
    }
    v
}

/// The string made of the characters `v[lo..hi]`.
pub fn string_of(v: &Vec<char>, lo: usize, hi: usize) -> (s: String)
    requires
        lo <= hi <= v@.len(),
    ensures
        s@ == v@.subrange(lo as int, hi as int),
{
    let mut s = String::new();
    let mut i = lo;
    while i < hi
        invariant
            lo <= i <= hi <= v@.len(),
            s@ == v@.subrange(lo as int, i as int),
        decreases hi - i,
    {
        push_char(&mut s, v[i]);
        assert(v@.subrange(lo as int, i + 1) =~= v@.subrange(lo as int, i as int).push(v@[i as int]));
        i = i + 1;
    }
    s
}

/// The characters `v[lo..hi]`.
pub fn slice_of(v: &Vec<char>, lo: usize, hi: usize) -> (r: Vec<char>)
    requires
        lo <= hi <= v@.len(),
    ensures
        r@ == v@.subrange(lo as int, hi as int),
{
    let mut r: Vec<char> = Vec::new();
    let mut i = lo;
    while i < hi
        invariant
            lo <= i <= hi <= v@.len(),
            r@ == v@.subrange(lo as int, i as int),
        decreases hi - i,
    {
        r.push(v[i]);
        assert(v@.subrange(lo as int, i + 1) =~= v@.subrange(lo as int, i as int).push(v@[i as int]));
        i = i + 1;
    }
    r
}

/// Appends `n` copies of `c` to `s`.
pub fn push_repeat(s: &mut String, c: char, n: usize)
    ensures
        final(s)@ == old(s)@ + repeat(c, n as nat),
{
    let ghost start = s@;
    let mut i: usize = 0;
    while i < n
        invariant
            i <= n,
            s@ == start + repeat(c, i as nat),
        decreases n - i,
    {
        push_char(s, c);
        assert(start + repeat(c, (i + 1) as nat) =~= (start + repeat(c, i as nat)).push(c));
        i = i + 1;
    }
}

/// `n` copies of `c` as a string (`c.to_string().repeat(n)`).
pub fn repeat_char(c: char, n: usize) -> (s: String)
    ensures
        s@ == repeat(c, n as nat),
{
    let mut s = String::new();
    push_repeat(&mut s, c, n);
    assert(s@ =~= repeat(c, n as nat));
    s
}

/// The decimal digit character for `d`.
pub fn digit_char(d: u64) -> (c: char)
    requires
        d < 10,
    ensures
        c == digit(d as nat),
{
    match d {
        0 => '0',
        1 => '1',
        2 => '2',
        3 => '3',
        4 => '4',
        5 => '5',
        6 => '6',
        7 => '7',
        8 => '8',
        _ => '9',
    }
}

/// Appends the decimal notation of `n` to `s` (what `{}` writes for it).
pub fn push_decimal(s: &mut String, n: u64)
    ensures
        final(s)@ == old(s)@ + decimal(n as nat),
    decreases n,
{
    let ghost start = s@;
    if n >= 10 {
        push_decimal(s, n / 10);
    }
    push_char(s, digit_char(n % 10));
    assert(s@ =~= start + decimal(n as nat));
}

/// The decimal notation of `n` (`n.to_string()`).
pub fn decimal_string(n: u64) -> (s: String)
    ensures
        s@ == decimal(n as nat),
{
    let mut s = String::new();
    push_decimal(&mut s, n);
    assert(s@ =~= decimal(n as nat));
    s
}

/// `text` padded with spaces on the right to at least `width` characters
/// (what `{:<width$}` writes).
pub fn pad_right(text: &str, width: usize) -> (s: String)
    ensures
        s@ == text@ + repeat(' ', fill(text@.len(), width as nat)),
{
    let n = text.unicode_len();
    let mut s = String::from_str(text);
    let k: usize = if n < width { width - n } else { 0 };
    push_repeat(&mut s, ' ', k);
    s
}

/// `text` padded with spaces on the left to at least `width` characters
/// (what `{:>width$}` writes).
pub fn pad_left(text: &str, width: usize) -> (s: String)
    ensures
        s@ == repeat(' ', fill(text@.len(), width as nat)) + text@,
{
    let n = text.unicode_len();
    let k: usize = if n < width { width - n } else { 0 };
    let mut s = repeat_char(' ', k);
    s.append(text);
    s
}

/// `value` cut down to at most `width` characters, ending in `…` when it
/// had to be cut.
pub fn shorten(value: &str, width: usize) -> (s: String)
    ensures
        s@ == shortened(value@, width as nat),
        s@.len() <= width,
{
    let n = value.unicode_len();
    if n <= width {
        return String::from_str(value);
    }
    if width < 2 {
        return String::new();
    }
    let head = value.substring_char(0, width - 1);
    let mut s = String::from_str(head);
    push_char(&mut s, '…');
    assert(s@ =~= value@.take(width - 1).push('…'));
    s
}

/// The bounds `(lo, hi)` of `v[from..to]` without the white space at either
/// end: `v[lo..hi]` is `str::trim` of `v[from..to]`.
pub fn trim_range(v: &Vec<char>, from: usize, to: usize) -> (r: (usize, usize))
    requires
        from <= to <= v@.len(),
    ensures
        from <= r.0 <= r.1 <= to,
        v@.subrange(r.0 as int, r.1 as int) == trimmed(v@.subrange(from as int, to as int)),
{
    let mut lo = from;
    while lo < to && char_is_space(v[lo])
        invariant
            from <= lo <= to <= v@.len(),
            trim_start_space(v@.subrange(from as int, to as int)) == trim_start_space(
                v@.subrange(lo as int, to as int),
            ),
        decreases to - lo,
    {
        assert(v@.subrange(lo as int, to as int).drop_first() =~= v@.subrange(lo + 1, to as int));
        lo = lo + 1;
    }
    let mut hi = to;
    while hi > lo && char_is_space(v[hi - 1])
        invariant
            from <= lo <= hi <= to <= v@.len(),
            trim_end_space(v@.subrange(lo as int, to as int)) == trim_end_space(
                v@.subrange(lo as int, hi as int),
            ),
        decreases hi - lo,
    {
        assert(v@.subrange(lo as int, hi as int).drop_last() =~= v@.subrange(lo as int, hi - 1));
        hi = hi - 1;
    }
    (lo, hi)
}

/// The bounds `(lo, hi)` of `v[from..to]` without copies of `c` at either
/// end: `v[lo..hi]` is `str::trim_matches(c)` of `v[from..to]`.
pub fn trim_char_range(v: &Vec<char>, from: usize, to: usize, c: char) -> (r: (usize, usize))
    requires
        from <= to <= v@.len(),
    ensures
        from <= r.0 <= r.1 <= to,
        v@.subrange(r.0 as int, r.1 as int) == trimmed_of(v@.subrange(from as int, to as int), c),
{
    let mut lo = from;
    while lo < to && v[lo] == c
        invariant
            from <= lo <= to <= v@.len(),
            trim_start_char(v@.subrange(from as int, to as int), c) == trim_start_char(
                v@.subrange(lo as int, to as int),
                c,
            ),
        decreases to - lo,
    {
        assert(v@.subrange(lo as int, to as int).drop_first() =~= v@.subrange(lo + 1, to as int));
        lo = lo + 1;
    }
    let mut hi = to;
    while hi > lo && v[hi - 1] == c
        invariant
            from <= lo <= hi <= to <= v@.len(),
            trim_end_char(v@.subrange(lo as int, to as int), c) == trim_end_char(
                v@.subrange(lo as int, hi as int),
                c,
            ),
        decreases hi - lo,
    {
        assert(v@.subrange(lo as int, hi as int).drop_last() =~= v@.subrange(lo as int, hi - 1));
        hi = hi - 1;
    }
    (lo, hi)
}

/// The text of `s` without white space at either end (`str::trim`).
pub fn trim(s: &str) -> (r: String)
    ensures
        r@ == trimmed(s@),
{
    let v = chars_of(s);
    let (lo, hi) = trim_range(&v, 0, v.len());
    assert(v@.subrange(0, v@.len() as int) =~= s@);
    string_of(&v, lo, hi)
}

/// The text of `s` without white space at its end (`str::trim_end`).
pub fn trim_end(s: &str) -> (r: String)
    ensures
        r@ == trim_end_space(s@),
{
    let v = chars_of(s);
    let mut hi = v.len();
    assert(v@.subrange(0, v@.len() as int) =~= s@);
    while hi > 0 && char_is_space(v[hi - 1])
        invariant
            hi <= v@.len(),
            v@ == s@,
            trim_end_space(s@) == trim_end_space(v@.subrange(0, hi as int)),
        decreases hi,
    {
        assert(v@.subrange(0, hi as int).drop_last() =~= v@.subrange(0, hi - 1));
        hi = hi - 1;
    }
    assert(v@.subrange(0, v@.len() as int) =~= s@);
    string_of(&v, 0, hi)
}

/// Where `c` first occurs in `v` at or after `from` (the length of `v` when
/// it does not).
pub fn index_of_from(v: &Vec<char>, from: usize, c: char) -> (i: usize)
    requires
        from <= v@.len(),
    ensures
        i == from + first_index(v@.skip(from as int), c),
{
    let mut i = from;
    while i < v.len() && v[i] != c
        invariant
            from <= i <= v@.len(),
            from + first_index(v@.skip(from as int), c) == i + first_index(v@.skip(i as int), c),
        decreases v@.len() - i,
    {
        proof {
            lemma_first_index_step(v@, i as int, c);
        }
        i = i + 1;
    }
    i
}

/// The bounds of the line of `v` that starts at `pos`: it is `v[pos..end]`,
/// and the next line starts at `next`.
pub fn line_at(v: &Vec<char>, pos: usize) -> (r: (usize, usize))
    requires
        pos < v@.len(),
    ensures
        pos <= r.0 <= v@.len(),
        pos < r.1 <= v@.len(),
        split_lines(v@.skip(pos as int)) == seq![v@.subrange(pos as int, r.0 as int)]
            + split_lines(v@.skip(r.1 as int)),
{
    let e = index_of_from(v, pos, '\n');
    proof {
        lemma_split_step(v@, pos as int, e as int);
    }
    if e < v.len() {
        let end = if e > pos && v[e - 1] == '\r' { e - 1 } else { e };
        assert(v@.subrange(pos as int, end as int) =~= strip_cr(v@.subrange(pos as int, e as int)));
        (end, e + 1)
    } else {
        proof {
            lemma_split_empty(v@.skip(e as int));
        }
        assert(seq![v@.subrange(pos as int, e as int)] + split_lines(v@.skip(e as int)) =~= seq![
            v@.subrange(pos as int, e as int),
        ]);
        (e, e)
    }
}

/// The first position at or after `from` where `p` occurs in `v[..to]`.
pub fn find_in(v: &Vec<char>, to: usize, p: &Vec<char>, from: usize) -> (r: Option<usize>)
    requires
        from <= to <= v@.len(),
    ensures
        r == (match find_from(v@.subrange(0, to as int), p@, from as int) {
            Some(k) => Some(k as usize),
            None => None,
        }),
{
    let ghost s = v@.subrange(0, to as int);
    let mut i = from;
    let plen = p.len();
    if plen > to {
        return None;
    }
    while i <= to - plen
        invariant
            from <= i,
            plen <= to <= v@.len(),
            s == v@.subrange(0, to as int),
            plen == p@.len(),
            find_from(s, p@, from as int) == find_from(s, p@, i as int),
        decreases to - i,
    {
        let mut j: usize = 0;
        let mut same = true;
        while j < plen
            invariant
                j <= plen,
                plen == p@.len(),
                i + plen <= to <= v@.len(),
                same <==> (forall|k: int| 0 <= k < j ==> v@[i + k] == p@[k]),
            decreases plen - j,
        {
            if v[i + j] != p[j] {
                same = false;
            }
            j = j + 1;
        }
        if same {
            assert(s.subrange(i as int, i + plen) =~= p@);
            return Some(i);
        }
        assert(!occurs_at(s, p@, i as int)) by {
            if s.subrange(i as int, i + plen) == p@ {
                assert forall|k: int| 0 <= k < plen implies v@[i + k] == p@[k] by {
                    assert(s.subrange(i as int, i + plen)[k] == p@[k]);
                }
            }
        }
        i = i + 1;
    }
    None
}

} // verus!
