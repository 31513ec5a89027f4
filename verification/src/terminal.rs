use vstd::prelude::*;
use vstd::string::*;

use crate::text::{chars_of, decimal, push_char, push_decimal};

verus! {

/// A 24-bit color.
#[derive(Clone, Copy, PartialEq, Eq, Structural, Debug)]
pub struct Rgb {
    pub r: u8,
    pub g: u8,
    pub b: u8,
}

pub fn white() -> (c: Rgb)
    ensures
        c == (Rgb { r: 229, g: 231, b: 235 }),
{
    Rgb { r: 229, g: 231, b: 235 }
}

pub fn gray() -> (c: Rgb)
    ensures
        c == (Rgb { r: 156, g: 163, b: 175 }),
{
    Rgb { r: 156, g: 163, b: 175 }
}

pub fn cyan() -> (c: Rgb)
    ensures
        c == (Rgb { r: 41, g: 213, b: 255 }),
{
    Rgb { r: 41, g: 213, b: 255 }
}

pub fn blue() -> (c: Rgb)
    ensures
        c == (Rgb { r: 66, g: 133, b: 255 }),
{
    Rgb { r: 66, g: 133, b: 255 }
}

pub fn indigo() -> (c: Rgb)
    ensures
        c == (Rgb { r: 99, g: 102, b: 241 }),
{
    Rgb { r: 99, g: 102, b: 241 }
}

pub fn violet() -> (c: Rgb)
    ensures
        c == (Rgb { r: 139, g: 92, b: 246 }),
{
    Rgb { r: 139, g: 92, b: 246 }
}

pub fn purple() -> (c: Rgb)
    ensures
        c == (Rgb { r: 168, g: 85, b: 247 }),
{
    Rgb { r: 168, g: 85, b: 247 }
}

pub fn magenta() -> (c: Rgb)
    ensures
        c == (Rgb { r: 217, g: 70, b: 239 }),
{
    Rgb { r: 217, g: 70, b: 239 }
}

pub fn pink() -> (c: Rgb)
    ensures
        c == (Rgb { r: 236, g: 72, b: 153 }),
{
    Rgb { r: 236, g: 72, b: 153 }
}

pub fn orange() -> (c: Rgb)
    ensures
        c == (Rgb { r: 245, g: 158, b: 11 }),
{
    Rgb { r: 245, g: 158, b: 11 }
}

/// The escape sequence that turns bold on.
pub open spec fn bold_on() -> Seq<char> {
    seq!['\x1b', '[', '1', 'm']
}

/// The escape sequence that turns dim on.
pub open spec fn dim_on() -> Seq<char> {
    seq!['\x1b', '[', '2', 'm']
}

/// The escape sequence that resets all styling.
pub open spec fn reset() -> Seq<char> {
    seq!['\x1b', '[', '0', 'm']
}

/// The escape sequence that selects `c` as a 24-bit foreground color.
pub open spec fn fg(c: Rgb) -> Seq<char> {
    seq!['\x1b', '[', '3', '8', ';', '2', ';'] + decimal(c.r as nat) + seq![';'] + decimal(
        c.g as nat,
    ) + seq![';'] + decimal(c.b as nat) + seq!['m']
}

/// `text` as `paint` gives it back: unchanged without color, else wrapped
/// in the color (and bold) sequences and a reset.
pub open spec fn painted(color: bool, text: Seq<char>, c: Rgb, bold: bool) -> Seq<char> {
    if !color {
        text
    } else {
        (if bold {
            bold_on()
        } else {
            Seq::empty()
        }) + fg(c) + text + reset()
    }
}

/// What the terminal that the report is written to can show.
pub struct Terminal {
    /// ANSI styling is written.
    pub color: bool,
    /// Block and box-drawing characters are written (else ASCII stand-ins).
    pub unicode: bool,
    /// Columns that a line may fill.
    pub width: usize,
}

/// Appends the characters `cs` to `s`.
fn push_all(s: &mut String, cs: &[char])
    ensures
        final(s)@ == old(s)@ + cs@,
{
    let ghost start = s@;
    let mut i: usize = 0;
    while i < cs.len()
        invariant
            i <= cs@.len(),
            s@ == start + cs@.take(i as int),
        decreases cs@.len() - i,
    {
        push_char(s, cs[i]);
        assert(cs@.take(i + 1) =~= cs@.take(i as int).push(cs@[i as int]));
        i = i + 1;
    }
    assert(cs@.take(cs@.len() as int) =~= cs@);
}

/// Appends the sequence that selects `c` as foreground color.
fn push_fg(s: &mut String, c: Rgb)
    ensures
        final(s)@ == old(s)@ + fg(c),
{
    let ghost start = s@;
    push_all(s, &['\x1b', '[', '3', '8', ';', '2', ';']);
    push_decimal(s, c.r as u64);
    push_char(s, ';');
    push_decimal(s, c.g as u64);
    push_char(s, ';');
    push_decimal(s, c.b as u64);
    push_char(s, 'm');
    assert(s@ =~= start + fg(c));
}

impl Terminal {
    /// `text` in color `c` (bold when `bold`), or unchanged when this
    /// terminal takes no styling.
    pub fn paint(&self, text: &str, c: Rgb, bold: bool) -> (s: String)
        ensures
            s@ == painted(self.color, text@, c, bold),
    {
        if !self.color {
            return String::from_str(text);
        }
        let mut s = String::new();
        if bold {
            push_all(&mut s, &['\x1b', '[', '1', 'm']);
        }
        push_fg(&mut s, c);
        s.append(text);
        push_all(&mut s, &['\x1b', '[', '0', 'm']);
        assert(s@ =~= painted(self.color, text@, c, bold));
        s
    }
}

// ---------------------------------------------------------------------------
// Deciding what the terminal can show, from the values of its environment.
// ---------------------------------------------------------------------------

/// The value of an ASCII digit.
pub open spec fn digit_value(c: char) -> nat {
    (c as int - '0' as int) as nat
}

pub open spec fn is_digit(c: char) -> bool {
    '0' <= c <= '9'
}

/// The number that the digits `d` stand for.
pub open spec fn digits_value(d: Seq<char>) -> nat
    decreases d.len(),
{
    if d.len() == 0 {
        0
    } else {
        digits_value(d.drop_last()) * 10 + digit_value(d.last())
    }
}

/// `s` without one leading `+`.
pub open spec fn unsigned_body(s: Seq<char>) -> Seq<char> {
    if s.len() > 0 && s[0] == '+' {
        s.drop_first()
    } else {
        s
    }
}

/// What `str::parse::<usize>` gives for `s`: an optional `+` followed by at
/// least one ASCII digit, whose value fits in a `usize`.
pub open spec fn parsed_usize(s: Seq<char>) -> Option<nat> {
    let body = unsigned_body(s);
    if body.len() > 0 && (forall|i: int| 0 <= i < body.len() ==> is_digit(body[i]))
        && digits_value(body) <= usize::MAX {
        Some(digits_value(body))
    } else {
        None
    }
}

proof fn lemma_digits_value_grows(d: Seq<char>, k: int)
    requires
        0 <= k <= d.len(),
        forall|i: int| 0 <= i < d.len() ==> is_digit(d[i]),
    ensures
        digits_value(d.take(k)) <= digits_value(d),
    decreases d.len() - k,
{
    if k < d.len() {
        lemma_digits_value_grows(d, k + 1);
        assert(d.take(k + 1).drop_last() =~= d.take(k));
    } else {
        assert(d.take(k) =~= d);
    }
}

/// `s` read as a decimal number, as `str::parse::<usize>` reads it.
pub fn parse_usize(s: &str) -> (r: Option<usize>)
    ensures
        r == (match parsed_usize(s@) {
            Some(v) => Some(v as usize),
            None => None,
        }),
{
    let v = chars_of(s);
    let start: usize = if v.len() > 0 && v[0] == '+' { 1 } else { 0 };
    let ghost body = v@.skip(start as int);
    assert(body =~= unsigned_body(s@));
    if start >= v.len() {
        return None;
    }
    let mut acc: usize = 0;
    let mut i = start;
    while i < v.len()
        invariant
            start <= i <= v@.len(),
            start < v@.len(),
            v@ == s@,
            body == v@.skip(start as int),
            body == unsigned_body(s@),
            forall|j: int| 0 <= j < i - start ==> is_digit(body[j]),
            acc == digits_value(body.take(i - start)),
        decreases v@.len() - i,
    {
        let c = v[i];
        if !('0' <= c && c <= '9') {
            assert(!is_digit(body[i - start]));
            assert(parsed_usize(s@) is None);
            return None;
        }
        let d = (c as u32 - '0' as u32) as usize;
        assert(body.take(i - start + 1).drop_last() =~= body.take(i - start));
        if acc > (usize::MAX - d) / 10 {
            proof {
                assert(acc * 10 + d > usize::MAX) by (nonlinear_arith)
                    requires
                        acc > (usize::MAX - d) / 10,
                        d <= 9,
                ;
                assert(digits_value(body.take(i - start + 1)) == acc * 10 + d);
                if forall|j: int| 0 <= j < body.len() ==> is_digit(body[j]) {
                    lemma_digits_value_grows(body, i - start + 1);
                }
                assert(parsed_usize(s@) is None);
            }
            return None;
        }
        assert(acc * 10 + d <= usize::MAX) by (nonlinear_arith)
            requires
                acc <= (usize::MAX - d) / 10,
                d <= 9,
        ;
        acc = acc * 10 + d;
        i = i + 1;
    }
    assert(body.take(v@.len() - start) =~= body);
    Some(acc)
}

/// `c` with an ASCII capital letter made small (`char::to_ascii_lowercase`).
pub open spec fn ascii_lower(c: char) -> char {
    if 'A' <= c <= 'Z' {
        ((c as int) + 32) as char
    } else {
        c
    }
}

/// `c` and `lower` are the same letter up to ASCII case, `lower` being small.
pub fn same_ascii_letter(c: char, lower: char) -> (b: bool)
    requires
        !('A' <= lower <= 'Z'),
    ensures
        b == (ascii_lower(c) == lower),
{
    if c == lower {
        return true;
    }
    if 'A' <= c && c <= 'Z' {
        (c as u32) + 32 == lower as u32
    } else {
        false
    }
}

/// `s` holds `p` (written in small letters) once ASCII letters are made
/// small: `s.to_ascii_lowercase().contains(p)`.
pub open spec fn contains_ignoring_case(s: Seq<char>, p: Seq<char>) -> bool {
    crate::text::contains(s.map_values(|c: char| ascii_lower(c)), p)
}

/// Whether `s` holds `p` once ASCII letters are made small.
pub fn contains_ignore_ascii_case(s: &Vec<char>, p: &Vec<char>) -> (b: bool)
    requires
        forall|i: int| 0 <= i < p@.len() ==> !('A' <= #[trigger] p@[i] <= 'Z'),
    ensures
        b == contains_ignoring_case(s@, p@),
{
    let ghost low = s@.map_values(|c: char| ascii_lower(c));
    let plen = p.len();
    if plen > s.len() {
        assert(!crate::text::contains(low, p@)) by {
            if crate::text::contains(low, p@) {
                let k = choose|k: int| crate::text::occurs_at(low, p@, k);
            }
        }
        return false;
    }
    let mut i: usize = 0;
    while i <= s.len() - plen
        invariant
            plen == p@.len(),
            plen <= s@.len(),
            low == s@.map_values(|c: char| ascii_lower(c)),
            forall|i: int| 0 <= i < p@.len() ==> !('A' <= #[trigger] p@[i] <= 'Z'),
            forall|k: int| 0 <= k < i ==> !crate::text::occurs_at(low, p@, k),
        decreases s@.len() - i,
    {
        let mut j: usize = 0;
        let mut same = true;
        while j < plen
            invariant
                j <= plen,
                plen == p@.len(),
                i + plen <= s@.len(),
                s@.len() == s.len(),
                low == s@.map_values(|c: char| ascii_lower(c)),
                forall|i: int| 0 <= i < p@.len() ==> !('A' <= #[trigger] p@[i] <= 'Z'),
                same <==> (forall|k: int| 0 <= k < j ==> low[i + k] == p@[k]),
            decreases plen - j,
        {
            if !same_ascii_letter(s[i + j], p[j]) {
                same = false;
            }
            j = j + 1;
        }
        if same {
            assert(low.subrange(i as int, i + plen) =~= p@);
            assert(crate::text::occurs_at(low, p@, i as int));
            return true;
        }
        assert(!crate::text::occurs_at(low, p@, i as int)) by {
            if low.subrange(i as int, i + plen) == p@ {
                assert forall|k: int| 0 <= k < plen implies low[i + k] == p@[k] by {
                    assert(low.subrange(i as int, i + plen)[k] == p@[k]);
                }
            }
        }
        i = i + 1;
    }
    assert(!crate::text::contains(low, p@)) by {
        if crate::text::contains(low, p@) {
            let k = choose|k: int| crate::text::occurs_at(low, p@, k);
            assert(k < i);
        }
    }
    false
}

/// The columns that `$COLUMNS` supplies: its number when it is one and at
/// least 20.
pub open spec fn columns_setting(columns: Option<Seq<char>>) -> Option<nat> {
    match columns {
        Some(s) => match parsed_usize(s) {
            Some(v) => if v >= 20 {
                Some(v)
            } else {
                None
            },
            None => None,
        },
        None => None,
    }
}

/// `w` held to the range 20 to 160.
pub open spec fn clamp_width(w: nat) -> nat {
    if w < 20 {
        20
    } else if w > 160 {
        160
    } else {
        w
    }
}

/// The width that the report uses: `$COLUMNS` when it names at least 20
/// columns, else what the terminal reports, else 100; then held to 20..160.
pub open spec fn chosen_width(columns: Option<Seq<char>>, reported: Option<usize>) -> nat {
    clamp_width(
        match columns_setting(columns) {
            Some(v) => v,
            None => match reported {
                Some(c) => c as nat,
                None => 100,
            },
        },
    )
}

/// The first locale variable that is set: `$LC_ALL`, `$LC_CTYPE`, `$LANG`,
/// or nothing.
pub open spec fn chosen_locale(
    lc_all: Option<Seq<char>>,
    lc_ctype: Option<Seq<char>>,
    lang: Option<Seq<char>>,
) -> Seq<char> {
    match lc_all {
        Some(l) => l,
        None => match lc_ctype {
            Some(l) => l,
            None => match lang {
                Some(l) => l,
                None => Seq::empty(),
            },
        },
    }
}

/// The locale names UTF-8 (`utf-8` or `utf8`, in any ASCII case).
pub open spec fn is_utf8_locale(locale: Seq<char>) -> bool {
    contains_ignoring_case(locale, seq!['u', 't', 'f', '-', '8'])
        || contains_ignoring_case(locale, seq!['u', 't', 'f', '8'])
}

/// The characters of `o`'s text, when there is one.
pub open spec fn opt_view(o: Option<&str>) -> Option<Seq<char>> {
    match o {
        Some(s) => Some(s@),
        None => None,
    }
}

/// The characters of `o`, or none when it is absent.
pub open spec fn or_empty(o: Option<Seq<char>>) -> Seq<char> {
    match o {
        Some(s) => s,
        None => Seq::empty(),
    }
}

proof fn lemma_digit_value(d: nat)
    requires
        d < 10,
    ensures
        is_digit(crate::text::digit(d)),
        digit_value(crate::text::digit(d)) == d,
{
    if d == 0 {
    } else if d == 1 {
    } else if d == 2 {
    } else if d == 3 {
    } else if d == 4 {
    } else if d == 5 {
    } else if d == 6 {
    } else if d == 7 {
    } else if d == 8 {
    } else {
        assert(d == 9);
    }
}

proof fn lemma_decimal_digits(n: nat)
    ensures
        decimal(n).len() >= 1,
        forall|i: int| 0 <= i < decimal(n).len() ==> is_digit(#[trigger] decimal(n)[i]),
        digits_value(decimal(n)) == n,
    decreases n,
{
    lemma_digit_value(n % 10);
    if n >= 10 {
        lemma_decimal_digits(n / 10);
        let d = decimal(n);
        assert(d.drop_last() =~= decimal(n / 10));
        assert(d.last() == crate::text::digit(n % 10));
        assert((n / 10) * 10 + n % 10 == n) by (nonlinear_arith);
        assert(digits_value(d) == digits_value(decimal(n / 10)) * 10 + digit_value(d.last()));
        assert forall|i: int| 0 <= i < d.len() implies is_digit(#[trigger] d[i]) by {
            if i < d.len() - 1 {
                assert(d[i] == decimal(n / 10)[i]);
            }
        }
    } else {
        assert(decimal(n).drop_last() =~= Seq::<char>::empty());
        assert(digits_value(Seq::<char>::empty()) == 0);
        assert(n % 10 == n);
    }
}

/// Reading a number back: what `{}` writes of any `usize` is read by
/// `parse_usize` as that same number.
pub proof fn lemma_parse_decimal(n: usize)
    ensures
        parsed_usize(decimal(n as nat)) == Some(n as nat),
{
    lemma_decimal_digits(n as nat);
    assert(unsigned_body(decimal(n as nat)) == decimal(n as nat));
}

/// Which width is chosen: `$COLUMNS` when it is a number of at least 20
/// (held to 160), whatever the terminal reports; else the reported width
/// (held to 20..160); else 100.
pub proof fn lemma_width_choice(columns: Option<Seq<char>>, reported: Option<usize>)
    ensures
        columns matches Some(c) ==> (parsed_usize(c) matches Some(v) ==> (20 <= v <= 160
            ==> chosen_width(columns, reported) == v)),
        columns matches Some(c) ==> (parsed_usize(c) matches Some(v) ==> (v > 160
            ==> chosen_width(columns, reported) == 160)),
        (columns is None || parsed_usize(columns->0) is None || parsed_usize(columns->0)->0 < 20)
            ==> (reported matches Some(w) ==> (20 <= w <= 160 ==> chosen_width(columns, reported)
            == w)),
        (columns is None || parsed_usize(columns->0) is None || parsed_usize(columns->0)->0 < 20)
            && reported is None ==> chosen_width(columns, reported) == 100,
        20 <= chosen_width(columns, reported) <= 160,
{
}

/// Which locale variable decides: `$LC_ALL` whenever it is set, whatever the
/// others hold; else `$LC_CTYPE`; else `$LANG`; else none (no UTF-8).
pub proof fn lemma_locale_precedence(
    lc_all: Option<Seq<char>>,
    lc_ctype: Option<Seq<char>>,
    lang: Option<Seq<char>>,
)
    ensures
        lc_all matches Some(l) ==> chosen_locale(lc_all, lc_ctype, lang) == l,
        lc_all is None ==> (lc_ctype matches Some(c) ==> chosen_locale(lc_all, lc_ctype, lang)
            == c),
        lc_all is None && lc_ctype is None ==> (lang matches Some(g) ==> chosen_locale(
            lc_all,
            lc_ctype,
            lang,
        ) == g),
        lc_all is None && lc_ctype is None && lang is None ==> !is_utf8_locale(
            chosen_locale(lc_all, lc_ctype, lang),
        ),
{
    if lc_all is None && lc_ctype is None && lang is None {
        let e = Seq::<char>::empty().map_values(|c: char| ascii_lower(c));
        assert(e.len() == 0);
        assert(!crate::text::contains(e, seq!['u', 't', 'f', '-', '8']));
        assert(!crate::text::contains(e, seq!['u', 't', 'f', '8']));
    }
}

impl Terminal {
    /// What the terminal can show, decided from its environment: whether
    /// standard output is a terminal, `$COLUMNS`, the width the terminal
    /// reports, `$TERM`, whether `$NO_COLOR` is set, and the locale variables.
    pub fn from_environment(
        stdout_is_tty: bool,
        columns: Option<&str>,
        reported_columns: Option<usize>,
        term: Option<&str>,
        no_color_set: bool,
        lc_all: Option<&str>,
        lc_ctype: Option<&str>,
        lang: Option<&str>,
    ) -> (t: Terminal)
        ensures
            t.width == chosen_width(opt_view(columns), reported_columns),
            t.color == (stdout_is_tty && !no_color_set && or_empty(opt_view(term)) != seq![
                'd',
                'u',
                'm',
                'b',
            ]),
            t.unicode == (or_empty(opt_view(term)) != seq!['l', 'i', 'n', 'u', 'x']
                && is_utf8_locale(chosen_locale(opt_view(lc_all), opt_view(lc_ctype), opt_view(lang)))),
            lc_all matches Some(l) ==> t.unicode == (or_empty(opt_view(term)) != seq![
                'l',
                'i',
                'n',
                'u',
                'x',
            ] && (contains_ignoring_case(l@, seq!['u', 't', 'f', '-', '8']) || contains_ignoring_case(
                l@,
                seq!['u', 't', 'f', '8'],
            ))),
            20 <= t.width <= 160,
    {
        let from_columns: Option<usize> = match columns {
            Some(c) => match parse_usize(c) {
                Some(v) => if v >= 20 {
                    Some(v)
                } else {
                    None
                },
                None => None,
            },
            None => None,
        };
        let raw: usize = match from_columns {
            Some(v) => v,
            None => match reported_columns {
                Some(c) => c,
                None => 100,
            },
        };
        let width = if raw < 20 {
            20
        } else if raw > 160 {
            160
        } else {
            raw
        };
        let term_chars: Vec<char> = match term {
            Some(t) => chars_of(t),
            None => Vec::new(),
        };
        assert(term_chars@ == or_empty(opt_view(term)));
        let is_dumb = term_chars.len() == 4 && term_chars[0] == 'd' && term_chars[1] == 'u'
            && term_chars[2] == 'm' && term_chars[3] == 'b';
        assert(is_dumb == (term_chars@ == seq!['d', 'u', 'm', 'b'])) by {
            if term_chars@ == seq!['d', 'u', 'm', 'b'] {
                assert(term_chars@[0] == 'd');
            }
            if is_dumb {
                assert(term_chars@ =~= seq!['d', 'u', 'm', 'b']);
            }
        }
        let is_linux = term_chars.len() == 5 && term_chars[0] == 'l' && term_chars[1] == 'i'
            && term_chars[2] == 'n' && term_chars[3] == 'u' && term_chars[4] == 'x';
        assert(is_linux == (term_chars@ == seq!['l', 'i', 'n', 'u', 'x'])) by {
            if term_chars@ == seq!['l', 'i', 'n', 'u', 'x'] {
                assert(term_chars@[0] == 'l');
            }
            if is_linux {
                assert(term_chars@ =~= seq!['l', 'i', 'n', 'u', 'x']);
            }
        }
        let locale: Vec<char> = match lc_all {
            Some(l) => chars_of(l),
            None => match lc_ctype {
                Some(l) => chars_of(l),
                None => match lang {
                    Some(l) => chars_of(l),
                    None => Vec::new(),
                },
            },
        };
        assert(locale@ == chosen_locale(opt_view(lc_all), opt_view(lc_ctype), opt_view(lang)));
        let utf_dash = vec!['u', 't', 'f', '-', '8'];
        let utf_plain = vec!['u', 't', 'f', '8'];
        assert(utf_dash@ == seq!['u', 't', 'f', '-', '8']);
        assert(utf_plain@ == seq!['u', 't', 'f', '8']);
        let utf8 = contains_ignore_ascii_case(&locale, &utf_dash) || contains_ignore_ascii_case(
            &locale,
            &utf_plain,
        );
        Terminal {
            color: stdout_is_tty && !no_color_set && !is_dumb,
            unicode: !is_linux && utf8,
            width,
        }
    }
}

/// The columns that the terminal reports through its window-size request:
/// the count when the request succeeded (`status` 0) and it is not zero.
pub fn winsize_columns(status: i32, cols: u16) -> (r: Option<usize>)
    ensures
        r == (if status == 0 && cols > 0 {
            Some(cols as usize)
        } else {
            None
        }),
{
    if status == 0 && cols > 0 {
        Some(cols as usize)
    } else {
        None
    }
}

} // verus!
