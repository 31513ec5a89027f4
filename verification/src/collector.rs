use vstd::prelude::*;
use vstd::string::*;

use crate::terminal::{ascii_lower, opt_view, same_ascii_letter};
use crate::text::{
    chars_of, contains, copy_str, decimal, find, find_in, lemma_find_contains, lemma_split_empty, line_at,
    push_char, push_decimal, split_lines, first_index, strip_cr, string_of, trim_char_range, trim_range, trimmed,
    trimmed_of,
};

verus! {

// ---------------------------------------------------------------------------
// Helpers on sequences of lines.
// ---------------------------------------------------------------------------

proof fn lemma_cons<A>(x: A, rest: Seq<A>)
    ensures
        (seq![x] + rest).len() > 0,
        (seq![x] + rest)[0] == x,
        (seq![x] + rest).drop_first() == rest,
{
    assert((seq![x] + rest).drop_first() =~= rest);
}

/// `p` is a prefix of `s`.
pub open spec fn has_prefix(s: Seq<char>, p: Seq<char>) -> bool {
    p.len() <= s.len() && s.take(p.len() as int) == p
}

/// Whether `v[from..to]` starts with `p`.
fn starts_with_at(v: &Vec<char>, from: usize, to: usize, p: &Vec<char>) -> (b: bool)
    requires
        from <= to <= v@.len(),
    ensures
        b == has_prefix(v@.subrange(from as int, to as int), p@),
{
    let ghost s = v@.subrange(from as int, to as int);
    if p.len() > to - from {
        return false;
    }
    let mut j: usize = 0;
    while j < p.len()
        invariant
            j <= p@.len(),
            from + p@.len() <= to <= v@.len(),
            s == v@.subrange(from as int, to as int),
            forall|k: int| 0 <= k < j ==> v@[from + k] == p@[k],
        decreases p@.len() - j,
    {
        if v[from + j] != p[j] {
            assert(s.take(p@.len() as int)[j as int] != p@[j as int]);
            return false;
        }
        j = j + 1;
    }
    assert(s.take(p@.len() as int) =~= p@);
    true
}

/// A value that is present and not empty.
pub open spec fn given(o: Option<Seq<char>>) -> bool {
    o matches Some(s) && s.len() > 0
}

fn is_given(o: Option<&str>) -> (b: bool)
    ensures
        b == given(opt_view(o)),
{
    match o {
        Some(s) => s.unicode_len() > 0,
        None => false,
    }
}

// ---------------------------------------------------------------------------
// Operating system name (`/etc/os-release`).
// ---------------------------------------------------------------------------

/// The value of the first `PRETTY_NAME=` line of `ls`, without the double
/// quotes around it.
pub open spec fn pretty_name_in(ls: Seq<Seq<char>>) -> Option<Seq<char>>
    decreases ls.len(),
{
    if ls.len() == 0 {
        None
    } else if has_prefix(ls[0], "PRETTY_NAME="@) {
        Some(trimmed_of(ls[0].skip("PRETTY_NAME="@.len() as int), '"'))
    } else {
        pretty_name_in(ls.drop_first())
    }
}

/// The operating system's name from the text of `os-release`: its
/// `PRETTY_NAME`, or `Unknown Linux` when the file could not be read or
/// names none.
pub open spec fn os_name_spec(contents: Option<Seq<char>>) -> Seq<char> {
    match contents {
        Some(c) => match pretty_name_in(split_lines(c)) {
            Some(n) => n,
            None => "Unknown Linux"@,
        },
        None => "Unknown Linux"@,
    }
}

/// The operating system's name from the text of `os-release` (absent when
/// it could not be read).
pub fn os_pretty_name(contents: Option<&str>) -> (name: String)
    ensures
        name@ == os_name_spec(opt_view(contents)),
{
    let text = match contents {
        Some(c) => c,
        None => {
            return copy_str("Unknown Linux");
        },
    };
    let v = chars_of(text);
    let key = chars_of("PRETTY_NAME=");
    let ghost want = pretty_name_in(split_lines(v@));
    assert(v@.skip(0) =~= v@);
    let mut pos: usize = 0;
    while pos < v.len()
        invariant
            pos <= v@.len(),
            v@ == text@,
            opt_view(contents) == Some(text@),
            key@ == "PRETTY_NAME="@,
            want == pretty_name_in(split_lines(v@)),
            want == pretty_name_in(split_lines(v@.skip(pos as int))),
        decreases v@.len() - pos,
    {
        let (end, next) = line_at(&v, pos);
        let ghost line = v@.subrange(pos as int, end as int);
        proof {
            lemma_cons(line, split_lines(v@.skip(next as int)));
        }
        if starts_with_at(&v, pos, end, &key) {
            let (lo, hi) = trim_char_range(&v, pos + key.len(), end, '"');
            assert(line.skip(key@.len() as int) =~= v@.subrange(pos + key@.len(), end as int));
            assert(has_prefix(line, "PRETTY_NAME="@));
            assert(want == Some(trimmed_of(line.skip("PRETTY_NAME="@.len() as int), '"')));
            let r = string_of(&v, lo, hi);
            assert(r@ == want->0);
            return r;
        }
        pos = next;
    }
    proof {
        lemma_split_empty(v@.skip(pos as int));
    }
    copy_str("Unknown Linux")
}

/// The text made of the lines `ls`, each followed by a newline.
pub open spec fn join_lines(ls: Seq<Seq<char>>) -> Seq<char>
    decreases ls.len(),
{
    if ls.len() == 0 {
        Seq::empty()
    } else {
        ls[0] + seq!['\n'] + join_lines(ls.drop_first())
    }
}

/// A line as a file holds it: no newline in it, no carriage return at its end.
pub open spec fn plain_line(l: Seq<char>) -> bool {
    (forall|j: int| 0 <= j < l.len() ==> l[j] != '\n') && (l.len() == 0 || l.last() != '\r')
}

proof fn lemma_first_index_after(a: Seq<char>, b: Seq<char>, c: char)
    requires
        forall|j: int| 0 <= j < a.len() ==> a[j] != c,
        b.len() > 0,
        b[0] == c,
    ensures
        first_index(a + b, c) == a.len(),
    decreases a.len(),
{
    if a.len() == 0 {
        assert(a + b =~= b);
    } else {
        assert((a + b).drop_first() =~= a.drop_first() + b);
        lemma_first_index_after(a.drop_first(), b, c);
    }
}

/// Splitting joined lines gives the lines back.
pub proof fn lemma_split_join(ls: Seq<Seq<char>>)
    requires
        forall|i: int| 0 <= i < ls.len() ==> plain_line(#[trigger] ls[i]),
    ensures
        split_lines(join_lines(ls)) == ls,
    decreases ls.len(),
{
    if ls.len() == 0 {
        assert(split_lines(Seq::<char>::empty()) =~= ls);
    } else {
        let l = ls[0];
        let rest = ls.drop_first();
        assert forall|i: int| 0 <= i < rest.len() implies plain_line(#[trigger] rest[i]) by {
            assert(rest[i] == ls[i + 1]);
        }
        lemma_split_join(rest);
        let s = join_lines(ls);
        assert(plain_line(ls[0]));
        assert(s == l + (seq!['\n'] + join_lines(rest)));
        lemma_first_index_after(l, seq!['\n'] + join_lines(rest), '\n');
        let e = first_index(s, '\n');
        assert(e == l.len());
        assert(s.take(e as int) =~= l);
        assert(s.skip((e + 1) as int) =~= join_lines(rest));
        assert(strip_cr(l) == l);
        assert(split_lines(s) =~= seq![l] + rest);
        assert(seq![l] + rest =~= ls);
    }
}

proof fn lemma_pretty_skips(pre: Seq<Seq<char>>, rest: Seq<Seq<char>>)
    requires
        forall|i: int| 0 <= i < pre.len() ==> !has_prefix(#[trigger] pre[i], "PRETTY_NAME="@),
    ensures
        pretty_name_in(pre + rest) == pretty_name_in(rest),
    decreases pre.len(),
{
    if pre.len() == 0 {
        assert(pre + rest =~= rest);
    } else {
        assert((pre + rest)[0] == pre[0]);
        assert((pre + rest).drop_first() =~= pre.drop_first() + rest);
        assert forall|i: int| 0 <= i < pre.drop_first().len() implies !has_prefix(
            #[trigger] pre.drop_first()[i],
            "PRETTY_NAME="@,
        ) by {
            assert(pre.drop_first()[i] == pre[i + 1]);
        }
        lemma_pretty_skips(pre.drop_first(), rest);
    }
}

/// The `PRETTY_NAME` line is found wherever it stands: in a file whose lines
/// are `pre`, then `PRETTY_NAME=x`, then `post`, where no line of `pre`
/// starts with `PRETTY_NAME=`, the name is `x` without its double quotes,
/// however many lines come before it.
pub proof fn lemma_pretty_name_found(pre: Seq<Seq<char>>, x: Seq<char>, post: Seq<Seq<char>>)
    requires
        forall|i: int| 0 <= i < pre.len() ==> plain_line(#[trigger] pre[i]),
        forall|i: int| 0 <= i < pre.len() ==> !has_prefix(#[trigger] pre[i], "PRETTY_NAME="@),
        forall|i: int| 0 <= i < post.len() ==> plain_line(#[trigger] post[i]),
        plain_line(x),
    ensures
        os_name_spec(Some(join_lines(pre + seq!["PRETTY_NAME="@ + x] + post))) == trimmed_of(x, '"'),
{
    reveal_strlit("PRETTY_NAME=");
    let key = "PRETTY_NAME="@;
    let line = key + x;
    let ls = pre + seq![line] + post;
    assert(plain_line(line)) by {
        assert forall|j: int| 0 <= j < line.len() implies line[j] != '\n' by {
            if j >= key.len() {
                assert(line[j] == x[j - key.len()]);
            }
        }
        if x.len() > 0 {
            assert(line.last() == x.last());
        }
    }
    assert forall|i: int| 0 <= i < ls.len() implies plain_line(#[trigger] ls[i]) by {
        if i < pre.len() {
            assert(ls[i] == pre[i]);
        } else if i == pre.len() {
            assert(ls[i] == line);
        } else {
            assert(ls[i] == post[i - pre.len() - 1]);
        }
    }
    lemma_split_join(ls);
    assert(ls == pre + (seq![line] + post));
    lemma_pretty_skips(pre, seq![line] + post);
    assert((seq![line] + post)[0] == line);
    assert(line.take(key.len() as int) =~= key);
    assert(line.skip(key.len() as int) =~= x);
}

/// Without a `PRETTY_NAME=` line the name is `Unknown Linux`.
pub proof fn lemma_pretty_name_missing(ls: Seq<Seq<char>>)
    requires
        forall|i: int| 0 <= i < ls.len() ==> plain_line(#[trigger] ls[i]),
        forall|i: int| 0 <= i < ls.len() ==> !has_prefix(#[trigger] ls[i], "PRETTY_NAME="@),
    ensures
        os_name_spec(Some(join_lines(ls))) == "Unknown Linux"@,
{
    lemma_split_join(ls);
    lemma_pretty_skips(ls, Seq::<Seq<char>>::empty());
    assert(ls + Seq::<Seq<char>>::empty() =~= ls);
}

// ---------------------------------------------------------------------------
// Graphics adapter (`lspci`).
// ---------------------------------------------------------------------------

/// What `str::to_lowercase` gives for `s` (Unicode's full lowercase mapping).
pub uninterp spec fn lowercase(s: Seq<char>) -> Seq<char>;

/// `s` in small letters (`str::to_lowercase`).
#[verifier::external_body]
fn to_lowercase(s: &str) -> (r: String)
    ensures
        r@ == lowercase(s@),
{
    s.to_lowercase()
}

/// A line of `lspci`, in small letters, that describes a display adapter.
pub open spec fn is_display_line(lower: Seq<char>) -> bool {
    contains(lower, "vga"@) || contains(lower, "3d controller"@)
}

/// Whether a line of `lspci`, in small letters, describes a display adapter.
pub fn describes_display(lower: &str) -> (b: bool)
    ensures
        b == is_display_line(lower@),
        b <==> (contains(lower@, "vga"@) || contains(lower@, "3d controller"@)),
{
    let v = chars_of(lower);
    let vga = chars_of("vga");
    let three_d = chars_of("3d controller");
    proof {
        lemma_find_contains(v@, vga@);
        lemma_find_contains(v@, three_d@);
        assert(v@.subrange(0, v@.len() as int) =~= v@);
    }
    find_in(&v, v.len(), &vga, 0).is_some() || find_in(&v, v.len(), &three_d, 0).is_some()
}

/// The device named on the first display-adapter line of `ls` that has a
/// `: ` in it: what follows the first `: `, without surrounding white space.
pub open spec fn gpu_in(ls: Seq<Seq<char>>) -> Option<Seq<char>>
    decreases ls.len(),
{
    if ls.len() == 0 {
        None
    } else if is_display_line(lowercase(ls[0])) && find(ls[0], ": "@) is Some {
        Some(trimmed(ls[0].skip((find(ls[0], ": "@)->0 + 2) as int)))
    } else {
        gpu_in(ls.drop_first())
    }
}

/// The graphics adapter named in the output of `lspci`, or `Unknown GPU`
/// when it could not be run or names none.
pub open spec fn gpu_name_spec(lspci: Option<Seq<char>>) -> Seq<char> {
    match lspci {
        Some(c) => match gpu_in(split_lines(c)) {
            Some(n) => n,
            None => "Unknown GPU"@,
        },
        None => "Unknown GPU"@,
    }
}

/// The graphics adapter named in the output of `lspci` (absent when it
/// could not be run).
pub fn gpu_name(lspci: Option<&str>) -> (name: String)
    ensures
        name@ == gpu_name_spec(opt_view(lspci)),
{
    let text = match lspci {
        Some(c) => c,
        None => {
            return copy_str("Unknown GPU");
        },
    };
    let v = chars_of(text);
    let sep = chars_of(": ");
    proof {
        reveal_strlit(": ");
    }
    let ghost want = gpu_in(split_lines(v@));
    assert(v@.skip(0) =~= v@);
    let mut pos: usize = 0;
    while pos < v.len()
        invariant
            pos <= v@.len(),
            v@ == text@,
            opt_view(lspci) == Some(text@),
            sep@ == ": "@,
            want == gpu_in(split_lines(v@)),
            want == gpu_in(split_lines(v@.skip(pos as int))),
        decreases v@.len() - pos,
    {
        let (end, next) = line_at(&v, pos);
        let ghost line = v@.subrange(pos as int, end as int);
        proof {
            lemma_cons(line, split_lines(v@.skip(next as int)));
        }
        let line_text = string_of(&v, pos, end);
        let lower = to_lowercase(line_text.as_str());
        if describes_display(lower.as_str()) {
            let line_chars = chars_of(line_text.as_str());
            assert(line_chars@.subrange(0, line_chars@.len() as int) =~= line);
            proof {
                reveal_strlit(": ");
                lemma_find_contains(line, sep@);
            }
            match find_in(&line_chars, line_chars.len(), &sep, 0) {
                Some(k) => {
                    let (lo, hi) = trim_range(&line_chars, k + 2, line_chars.len());
                    assert(line.skip(k + 2) =~= line_chars@.subrange(k + 2, line_chars@.len() as int));
                    return string_of(&line_chars, lo, hi);
                },
                None => {},
            }
        }
        pos = next;
    }
    proof {
        lemma_split_empty(v@.skip(pos as int));
    }
    copy_str("Unknown GPU")
}

proof fn lemma_gpu_skips(pre: Seq<Seq<char>>, rest: Seq<Seq<char>>)
    requires
        forall|i: int|
            0 <= i < pre.len() ==> !((contains(lowercase(#[trigger] pre[i]), "vga"@) || contains(
                lowercase(pre[i]),
                "3d controller"@,
            )) && find(pre[i], ": "@) is Some),
    ensures
        gpu_in(pre + rest) == gpu_in(rest),
    decreases pre.len(),
{
    if pre.len() == 0 {
        assert(pre + rest =~= rest);
    } else {
        assert((pre + rest)[0] == pre[0]);
        assert((pre + rest).drop_first() =~= pre.drop_first() + rest);
        assert forall|i: int| 0 <= i < pre.drop_first().len() implies !((contains(
            lowercase(#[trigger] pre.drop_first()[i]),
            "vga"@,
        ) || contains(lowercase(pre.drop_first()[i]), "3d controller"@)) && find(
            pre.drop_first()[i],
            ": "@,
        ) is Some) by {
            assert(pre.drop_first()[i] == pre[i + 1]);
        }
        lemma_gpu_skips(pre.drop_first(), rest);
    }
}

/// The graphics adapter is found wherever its line stands: in `lspci` output
/// whose lines are `pre`, then `l`, then `post`, where `l` names `vga` or a
/// `3d controller` (in any case) and has a `: `, and no line of `pre` does
/// both, the adapter is what follows the first `: ` of `l`, trimmed.
pub proof fn lemma_gpu_found(pre: Seq<Seq<char>>, l: Seq<char>, post: Seq<Seq<char>>)
    requires
        forall|i: int| 0 <= i < pre.len() ==> plain_line(#[trigger] pre[i]),
        forall|i: int| 0 <= i < post.len() ==> plain_line(#[trigger] post[i]),
        plain_line(l),
        forall|i: int|
            0 <= i < pre.len() ==> !((contains(lowercase(#[trigger] pre[i]), "vga"@) || contains(
                lowercase(pre[i]),
                "3d controller"@,
            )) && find(pre[i], ": "@) is Some),
        contains(lowercase(l), "vga"@) || contains(lowercase(l), "3d controller"@),
        find(l, ": "@) is Some,
    ensures
        gpu_name_spec(Some(join_lines(pre + seq![l] + post))) == trimmed(
            l.skip((find(l, ": "@)->0 + 2) as int),
        ),
{
    let ls = pre + seq![l] + post;
    assert forall|i: int| 0 <= i < ls.len() implies plain_line(#[trigger] ls[i]) by {
        if i < pre.len() {
            assert(ls[i] == pre[i]);
        } else if i == pre.len() {
            assert(ls[i] == l);
        } else {
            assert(ls[i] == post[i - pre.len() - 1]);
        }
    }
    lemma_split_join(ls);
    assert(ls == pre + (seq![l] + post));
    lemma_gpu_skips(pre, seq![l] + post);
    assert((seq![l] + post)[0] == l);
}

// ---------------------------------------------------------------------------
// Installed packages (a package manager's listing).
// ---------------------------------------------------------------------------

/// How many of `ls` hold something besides white space.
pub open spec fn count_nonblank(ls: Seq<Seq<char>>) -> nat
    decreases ls.len(),
{
    if ls.len() == 0 {
        0
    } else {
        (if trimmed(ls[0]).len() > 0 {
            1nat
        } else {
            0nat
        }) + count_nonblank(ls.drop_first())
    }
}

/// The package count that a package manager's listing gives: its number of
/// non-blank lines, when the manager succeeded and listed at least one.
pub open spec fn package_count_spec(success: bool, listing: Seq<char>) -> Option<nat> {
    if success && count_nonblank(split_lines(listing)) > 0 {
        Some(count_nonblank(split_lines(listing)))
    } else {
        None
    }
}

proof fn lemma_count_bound(s: Seq<char>)
    ensures
        count_nonblank(split_lines(s)) <= s.len(),
    decreases s.len(),
{
    if s.len() > 0 {
        crate::text::lemma_first_index_bound(s, '\n');
        let e = crate::text::first_index(s, '\n');
        if e < s.len() {
            lemma_count_bound(s.skip((e + 1) as int));
            lemma_cons(
                crate::text::strip_cr(s.take(e as int)),
                split_lines(s.skip((e + 1) as int)),
            );
            assert(count_nonblank(split_lines(s)) <= 1 + count_nonblank(
                split_lines(s.skip((e + 1) as int)),
            ));
        } else {
            assert(split_lines(s) == seq![s]);
            lemma_cons(s, Seq::<Seq<char>>::empty());
            assert(seq![s] + Seq::<Seq<char>>::empty() =~= seq![s]);
            assert(count_nonblank(Seq::<Seq<char>>::empty()) == 0);
        }
    }
}

/// The package count from a package manager's listing, if it gives one.
pub fn package_count_from(success: bool, listing: &str) -> (r: Option<usize>)
    ensures
        r is Some <==> package_count_spec(success, listing@) is Some,
        r matches Some(k) ==> k as nat == count_nonblank(split_lines(listing@)),
{
    if !success {
        return None;
    }
    let v = chars_of(listing);
    let ghost total = count_nonblank(split_lines(v@));
    proof {
        lemma_count_bound(v@);
    }
    assert(v@.skip(0) =~= v@);
    let mut pos: usize = 0;
    let mut count: usize = 0;
    while pos < v.len()
        invariant
            pos <= v@.len(),
            v@ == listing@,
            total == count_nonblank(split_lines(v@)),
            total <= v@.len(),
            total == count + count_nonblank(split_lines(v@.skip(pos as int))),
        decreases v@.len() - pos,
    {
        let (end, next) = line_at(&v, pos);
        let ghost line = v@.subrange(pos as int, end as int);
        proof {
            lemma_cons(line, split_lines(v@.skip(next as int)));
        }
        let (lo, hi) = trim_range(&v, pos, end);
        if lo < hi {
            count = count + 1;
        }
        pos = next;
    }
    proof {
        lemma_split_empty(v@.skip(pos as int));
    }
    if count > 0 {
        Some(count)
    } else {
        None
    }
}

/// The package managers that are asked for a listing, in order.
#[derive(Clone, Copy, PartialEq, Eq, Structural, Debug)]
pub enum Manager {
    /// `pacman -Qq`
    Pacman,
    /// `dpkg-query -f '.\n' -W`
    Dpkg,
}

/// What to do next about the package count: ask a package manager, or
/// show the count found (none when no manager gave one).
#[derive(Debug)]
pub enum PackageStep {
    Ask(Manager),
    Show(Option<usize>),
}

/// The first count among `answers`, if any.
pub open spec fn first_some(answers: Seq<Option<usize>>) -> Option<usize>
    decreases answers.len(),
{
    if answers.len() == 0 {
        None
    } else if answers[0] is Some {
        answers[0]
    } else {
        first_some(answers.drop_first())
    }
}

/// The manager asked in turn `i`: `pacman` first, then `dpkg-query`.
pub open spec fn manager_at(i: int) -> Manager {
    if i == 0 {
        Manager::Pacman
    } else {
        Manager::Dpkg
    }
}

/// The next step, given what the managers asked so far answered, in order:
/// show the first count given; else ask the next manager; else show none.
pub open spec fn package_step_spec(answers: Seq<Option<usize>>) -> (bool, Manager, Option<usize>) {
    if first_some(answers) is Some {
        (false, Manager::Pacman, first_some(answers))
    } else if answers.len() < 2 {
        (true, manager_at(answers.len() as int), None)
    } else {
        (false, Manager::Pacman, None)
    }
}

/// The next step of finding the package count, given the answers of the
/// managers asked so far, in order: `pacman` is asked first and `dpkg-query`
/// only when it gave no count; the first count given is shown, else none.
pub fn package_step(answers: &Vec<Option<usize>>) -> (step: PackageStep)
    ensures
        package_step_spec(answers@).0 ==> step == PackageStep::Ask(package_step_spec(answers@).1),
        !package_step_spec(answers@).0 ==> step == PackageStep::Show(package_step_spec(answers@).2),
{
    let mut i: usize = 0;
    assert(answers@.skip(0) =~= answers@);
    while i < answers.len()
        invariant
            i <= answers@.len(),
            first_some(answers@) == first_some(answers@.skip(i as int)),
        decreases answers@.len() - i,
    {
        assert(answers@.skip(i as int).drop_first() =~= answers@.skip(i + 1));
        if answers[i].is_some() {
            return PackageStep::Show(answers[i]);
        }
        i = i + 1;
    }
    assert(first_some(answers@.skip(i as int)) is None);
    if answers.len() == 0 {
        PackageStep::Ask(Manager::Pacman)
    } else if answers.len() == 1 {
        PackageStep::Ask(Manager::Dpkg)
    } else {
        PackageStep::Show(None)
    }
}

// ---------------------------------------------------------------------------
// Names taken from the environment.
// ---------------------------------------------------------------------------

/// The shell's name: `$PRISM_SHELL_NAME` when given, else `Prism Shell`.
pub fn shell_name(prism_shell_name: Option<&str>) -> (name: String)
    ensures
        name@ == (if given(opt_view(prism_shell_name)) {
            opt_view(prism_shell_name)->0
        } else {
            "Prism Shell"@
        }),
{
    if is_given(prism_shell_name) {
        copy_str(prism_shell_name.unwrap())
    } else {
        copy_str("Prism Shell")
    }
}

/// The terminal's name: `$PRISM_TERMINAL_NAME` when given, else
/// `$TERM_PROGRAM` when given, else `Prism Terminal`.
pub fn terminal_name(prism_terminal_name: Option<&str>, term_program: Option<&str>) -> (name:
    String)
    ensures
        name@ == (if given(opt_view(prism_terminal_name)) {
            opt_view(prism_terminal_name)->0
        } else if given(opt_view(term_program)) {
            opt_view(term_program)->0
        } else {
            "Prism Terminal"@
        }),
{
    if is_given(prism_terminal_name) {
        copy_str(prism_terminal_name.unwrap())
    } else if is_given(term_program) {
        copy_str(term_program.unwrap())
    } else {
        copy_str("Prism Terminal")
    }
}

/// `s` equals `p` (written in small letters) up to ASCII case.
pub open spec fn eq_ignoring_case(s: Seq<char>, p: Seq<char>) -> bool {
    s.len() == p.len() && forall|i: int| 0 <= i < s.len() ==> ascii_lower(s[i]) == p[i]
}

fn eq_ignore_case(s: &Vec<char>, p: &Vec<char>) -> (b: bool)
    requires
        forall|i: int| 0 <= i < p@.len() ==> !('A' <= #[trigger] p@[i] <= 'Z'),
    ensures
        b == eq_ignoring_case(s@, p@),
{
    if s.len() != p.len() {
        return false;
    }
    let mut i: usize = 0;
    while i < s.len()
        invariant
            i <= s@.len(),
            s@.len() == p@.len(),
            forall|q: int| 0 <= q < p@.len() ==> !('A' <= #[trigger] p@[q] <= 'Z'),
            forall|k: int| 0 <= k < i ==> ascii_lower(s@[k]) == p@[k],
        decreases s@.len() - i,
    {
        if !same_ascii_letter(s[i], p[i]) {
            return false;
        }
        i = i + 1;
    }
    true
}

/// The display server: `Wayland` or `X11` by `$XDG_SESSION_TYPE` (in any
/// ASCII case), else `Unknown`.
pub fn compositor_name(session_type: Option<&str>) -> (name: String)
    ensures
        name@ == (if session_type is Some && eq_ignoring_case(opt_view(session_type)->0, "wayland"@) {
            "Wayland"@
        } else if session_type is Some && eq_ignoring_case(opt_view(session_type)->0, "x11"@) {
            "X11"@
        } else {
            "Unknown"@
        }),
{
    let kind = match session_type {
        Some(s) => chars_of(s),
        None => {
            return copy_str("Unknown");
        },
    };
    let wayland = vec!['w', 'a', 'y', 'l', 'a', 'n', 'd'];
    let x11 = vec!['x', '1', '1'];
    proof {
        reveal_strlit("wayland");
        reveal_strlit("x11");
    }
    assert(wayland@ =~= "wayland"@);
    assert(x11@ =~= "x11"@);
    if eq_ignore_case(&kind, &wayland) {
        copy_str("Wayland")
    } else if eq_ignore_case(&kind, &x11) {
        copy_str("X11")
    } else {
        copy_str("Unknown")
    }
}

/// The window manager: `$PRISM_WM_NAME` when given, else
/// `$XDG_CURRENT_DESKTOP`, else `$DESKTOP_SESSION`, else `Unknown`.
pub fn window_manager_name(
    prism_wm_name: Option<&str>,
    current_desktop: Option<&str>,
    desktop_session: Option<&str>,
) -> (name: String)
    ensures
        name@ == (if given(opt_view(prism_wm_name)) {
            opt_view(prism_wm_name)->0
        } else if current_desktop is Some {
            opt_view(current_desktop)->0
        } else if desktop_session is Some {
            opt_view(desktop_session)->0
        } else {
            "Unknown"@
        }),
{
    if is_given(prism_wm_name) {
        copy_str(prism_wm_name.unwrap())
    } else if current_desktop.is_some() {
        copy_str(current_desktop.unwrap())
    } else if desktop_session.is_some() {
        copy_str(desktop_session.unwrap())
    } else {
        copy_str("Unknown")
    }
}

/// The kernel release, or `Unknown` when it could not be read.
pub fn kernel_release(release: Option<&str>) -> (name: String)
    ensures
        name@ == (if release is Some {
            opt_view(release)->0
        } else {
            "Unknown"@
        }),
{
    match release {
        Some(r) => copy_str(r),
        None => copy_str("Unknown"),
    }
}

/// The processor's name: the brand of the first processor without white
/// space around it, or `Unknown CPU` when there is none or it is blank.
pub fn cpu_name(brand: Option<&str>) -> (name: String)
    ensures
        name@ == (if brand is Some && trimmed(opt_view(brand)->0).len() > 0 {
            trimmed(opt_view(brand)->0)
        } else {
            "Unknown CPU"@
        }),
{
    match brand {
        Some(b) => {
            let t = crate::text::trim(b);
            if t.as_str().unicode_len() > 0 {
                t
            } else {
                copy_str("Unknown CPU")
            }
        },
        None => copy_str("Unknown CPU"),
    }
}

/// A desktop setting as `gsettings get` prints it: without surrounding white
/// space and without the single quotes around it.
pub open spec fn gsettings_value_spec(output: Seq<char>) -> Seq<char> {
    trimmed_of(trimmed(output), '\'')
}

/// A desktop setting: `override_value` when given, else what `gsettings`
/// printed when it succeeded, else `default`.
pub open spec fn setting_spec(
    override_value: Option<Seq<char>>,
    gsettings: Option<Seq<char>>,
    default: Seq<char>,
) -> Seq<char> {
    if given(override_value) {
        override_value->0
    } else if gsettings is Some {
        gsettings_value_spec(gsettings->0)
    } else {
        default
    }
}

/// A desktop setting (theme, icons, font): `override_value` when given, else
/// what `gsettings` printed (absent when it did not succeed), else `default`.
pub fn setting_value(override_value: Option<&str>, gsettings: Option<&str>, default: &str) -> (s:
    String)
    ensures
        s@ == setting_spec(opt_view(override_value), opt_view(gsettings), default@),
{
    if is_given(override_value) {
        return copy_str(override_value.unwrap());
    }
    match gsettings {
        Some(out) => {
            let v = chars_of(out);
            let (lo, hi) = trim_range(&v, 0, v.len());
            let (lo2, hi2) = trim_char_range(&v, lo, hi, '\'');
            assert(v@.subrange(0, v@.len() as int) =~= out@);
            string_of(&v, lo2, hi2)
        },
        None => copy_str(default),
    }
}

// ---------------------------------------------------------------------------
// Uptime.
// ---------------------------------------------------------------------------

/// Uptime as whole hours and the minutes past them: `{h}h {m}m`.
pub open spec fn uptime_spec(seconds: nat) -> Seq<char> {
    decimal(seconds / 3600) + seq!['h', ' '] + decimal((seconds % 3600) / 60) + seq!['m']
}

/// Uptime in whole hours and minutes.
pub fn format_uptime(seconds: u64) -> (s: String)
    ensures
        s@ == uptime_spec(seconds as nat),
{
    let hours = seconds / 3600;
    let minutes = (seconds % 3600) / 60;
    let mut s = String::new();
    push_decimal(&mut s, hours);
    push_char(&mut s, 'h');
    push_char(&mut s, ' ');
    push_decimal(&mut s, minutes);
    push_char(&mut s, 'm');
    assert(s@ =~= uptime_spec(seconds as nat));
    s
}

// ---------------------------------------------------------------------------
// Disk.
// ---------------------------------------------------------------------------

/// A mounted disk, as far as the report needs it.
#[derive(Clone, Copy, PartialEq, Eq, Structural, Debug)]
pub struct DiskSpace {
    /// It is mounted at `/`.
    pub is_root: bool,
    pub total: u64,
    pub available: u64,
}

/// Where the first disk mounted at `/` is in `ds`, if any.
pub open spec fn first_root(ds: Seq<DiskSpace>) -> Option<int>
    decreases ds.len(),
{
    if ds.len() == 0 {
        None
    } else if ds[0].is_root {
        Some(0)
    } else {
        match first_root(ds.drop_first()) {
            Some(k) => Some(k + 1),
            None => None,
        }
    }
}

/// Where the largest disk of `ds[..n]` is, the last of equally large ones.
pub open spec fn last_largest(ds: Seq<DiskSpace>, n: int) -> int
    decreases n,
{
    if n <= 1 {
        0
    } else {
        let k = last_largest(ds, n - 1);
        if ds[n - 1].total >= ds[k].total {
            n - 1
        } else {
            k
        }
    }
}

/// The disk that the report shows: the first one mounted at `/`, else the
/// largest (the last of equally large ones), else none.
pub open spec fn chosen_disk(ds: Seq<DiskSpace>) -> Option<DiskSpace> {
    match first_root(ds) {
        Some(k) => Some(ds[k]),
        None => if ds.len() > 0 {
            Some(ds[last_largest(ds, ds.len() as int)])
        } else {
            None
        },
    }
}

/// Used and total bytes of the disk that the report shows (`(0, 0)` when
/// there is none); used is total less available, not below zero.
pub open spec fn disk_usage_spec(ds: Seq<DiskSpace>) -> (nat, nat) {
    match chosen_disk(ds) {
        Some(d) => (
            if d.available <= d.total {
                (d.total - d.available) as nat
            } else {
                0
            },
            d.total as nat,
        ),
        None => (0, 0),
    }
}

/// Used and total bytes of the disk that the report shows.
pub fn disk_usage(disks: &Vec<DiskSpace>) -> (r: (u64, u64))
    ensures
        r.0 == disk_usage_spec(disks@).0,
        r.1 == disk_usage_spec(disks@).1,
        r.0 <= r.1,
{
    let n = disks.len();
    let mut i: usize = 0;
    let mut root: Option<usize> = None;
    assert(disks@.skip(0) =~= disks@);
    while i < n
        invariant
            n == disks@.len(),
            i <= n,
            root is None ==> first_root(disks@) == (match first_root(disks@.skip(i as int)) {
                Some(k) => Some(k + i),
                None => None,
            }),
            root matches Some(k) ==> first_root(disks@) == Some(k as int) && k < n,
        decreases n - i,
    {
        if root.is_none() {
            assert(disks@.skip(i as int).drop_first() =~= disks@.skip(i + 1));
            if disks[i].is_root {
                root = Some(i);
            }
        }
        i = i + 1;
    }
    let chosen: Option<DiskSpace> = match root {
        Some(k) => Some(disks[k]),
        None => {
            if n == 0 {
                None
            } else {
                let mut best: usize = 0;
                let mut j: usize = 1;
                while j < n
                    invariant
                        n == disks@.len(),
                        1 <= j <= n,
                        best == last_largest(disks@, j as int),
                        best < j,
                    decreases n - j,
                {
                    if disks[j].total >= disks[best].total {
                        best = j;
                    }
                    j = j + 1;
                }
                Some(disks[best])
            }
        },
    };
    assert(root is None ==> first_root(disks@.skip(n as int)) is None);
    assert(chosen == chosen_disk(disks@));
    match chosen {
        Some(d) => {
            let used = if d.available <= d.total {
                d.total - d.available
            } else {
                0
            };
            (used, d.total)
        },
        None => (0, 0),
    }
}

/// A line that holds something besides white space.
pub open spec fn nonblank(l: Seq<char>) -> bool {
    exists|j: int| 0 <= j < l.len() && !crate::text::is_space(l[j])
}

proof fn lemma_trimmed_empty_iff(l: Seq<char>)
    ensures
        (trimmed(l).len() > 0) == nonblank(l),
    decreases l.len(),
{
    let st = crate::text::trim_start_space(l);
    lemma_trim_start_empty_iff(l);
    lemma_trim_end_keeps_nonblank(st);
}

proof fn lemma_trim_start_empty_iff(l: Seq<char>)
    ensures
        (crate::text::trim_start_space(l).len() > 0) == nonblank(l),
        crate::text::trim_start_space(l).len() > 0 ==> !crate::text::is_space(
            crate::text::trim_start_space(l)[0],
        ),
    decreases l.len(),
{
    if l.len() > 0 && crate::text::is_space(l[0]) {
        lemma_trim_start_empty_iff(l.drop_first());
        if nonblank(l) {
            let j = choose|j: int| 0 <= j < l.len() && !crate::text::is_space(l[j]);
            assert(l.drop_first()[j - 1] == l[j]);
        }
        if nonblank(l.drop_first()) {
            let j = choose|j: int|
                0 <= j < l.drop_first().len() && !crate::text::is_space(l.drop_first()[j]);
            assert(l[j + 1] == l.drop_first()[j]);
        }
    } else if l.len() > 0 {
        assert(!crate::text::is_space(l[0]));
    }
}

proof fn lemma_trim_end_keeps_nonblank(s: Seq<char>)
    requires
        s.len() > 0 ==> !crate::text::is_space(s[0]),
    ensures
        (crate::text::trim_end_space(s).len() > 0) == (s.len() > 0),
    decreases s.len(),
{
    if s.len() > 0 && crate::text::is_space(s.last()) {
        if s.len() > 1 {
            assert(s.drop_last()[0] == s[0]);
            lemma_trim_end_keeps_nonblank(s.drop_last());
        }
    }
}

proof fn lemma_count_is_filter(ls: Seq<Seq<char>>)
    ensures
        count_nonblank(ls) == ls.filter(|l: Seq<char>| nonblank(l)).len(),
    decreases ls.len(),
{
    if ls.len() > 0 {
        let rest = ls.drop_first();
        lemma_count_is_filter(rest);
        lemma_trimmed_empty_iff(ls[0]);
        rest.lemma_filter_prepend(ls[0], |l: Seq<char>| nonblank(l));
        assert(seq![ls[0]] + rest =~= ls);
    }
}

/// The package count of a listing is its number of non-blank lines: for a
/// manager that succeeded and listed the lines `ls`, the count is how many
/// of them hold something besides white space, or none when none does; a
/// manager that failed gives no count.
pub proof fn lemma_package_count_lines(ls: Seq<Seq<char>>)
    requires
        forall|i: int| 0 <= i < ls.len() ==> plain_line(#[trigger] ls[i]),
    ensures
        ({
            let n = ls.filter(|l: Seq<char>| nonblank(l)).len();
            package_count_spec(true, join_lines(ls)) == if n > 0 {
                Some(n)
            } else {
                None
            }
        }),
        package_count_spec(false, join_lines(ls)) is None,
{
    lemma_split_join(ls);
    lemma_count_is_filter(ls);
}

/// Which disk is shown: the first one mounted at `/` when there is one; else
/// the largest, the last of equally large ones; its used bytes are its total
/// less what is available, or none when more is available than it holds.
pub proof fn lemma_disk_choice(ds: Seq<DiskSpace>)
    ensures
        forall|k: int|
            0 <= k < ds.len() && ds[k].is_root && (forall|j: int| 0 <= j < k ==> !ds[j].is_root)
                ==> chosen_disk(ds) == Some(#[trigger] ds[k]),
        (forall|j: int| 0 <= j < ds.len() ==> !ds[j].is_root) && ds.len() > 0 ==> exists|k: int|
            0 <= k < ds.len() && chosen_disk(ds) == Some(#[trigger] ds[k]) && (forall|j: int|
                0 <= j < ds.len() ==> ds[j].total <= ds[k].total) && (forall|j: int|
                k < j < ds.len() ==> ds[j].total < ds[k].total),
        ds.len() == 0 ==> disk_usage_spec(ds) == (0nat, 0nat),
        chosen_disk(ds) matches Some(d) ==> disk_usage_spec(ds).1 == d.total && (d.available
            <= d.total ==> disk_usage_spec(ds).0 + d.available == d.total) && (d.available
            > d.total ==> disk_usage_spec(ds).0 == 0),
{
    assert forall|k: int|
        0 <= k < ds.len() && ds[k].is_root && (forall|j: int| 0 <= j < k ==> !ds[j].is_root)
            implies chosen_disk(ds) == Some(#[trigger] ds[k]) by {
        lemma_first_root_at(ds, k);
    }
    if (forall|j: int| 0 <= j < ds.len() ==> !ds[j].is_root) && ds.len() > 0 {
        lemma_no_root(ds);
        lemma_last_largest(ds, ds.len() as int);
        let k = last_largest(ds, ds.len() as int);
        assert(chosen_disk(ds) == Some(ds[k]));
    }
}

proof fn lemma_first_root_at(ds: Seq<DiskSpace>, k: int)
    requires
        0 <= k < ds.len(),
        ds[k].is_root,
        forall|j: int| 0 <= j < k ==> !ds[j].is_root,
    ensures
        first_root(ds) == Some(k),
    decreases k,
{
    if k > 0 {
        assert forall|j: int| 0 <= j < k - 1 implies !ds.drop_first()[j].is_root by {
            assert(ds.drop_first()[j] == ds[j + 1]);
        }
        lemma_first_root_at(ds.drop_first(), k - 1);
    }
}

proof fn lemma_no_root(ds: Seq<DiskSpace>)
    requires
        forall|j: int| 0 <= j < ds.len() ==> !ds[j].is_root,
    ensures
        first_root(ds) is None,
    decreases ds.len(),
{
    if ds.len() > 0 {
        assert forall|j: int| 0 <= j < ds.drop_first().len() implies !ds.drop_first()[j].is_root by {
            assert(ds.drop_first()[j] == ds[j + 1]);
        }
        lemma_no_root(ds.drop_first());
    }
}

proof fn lemma_last_largest(ds: Seq<DiskSpace>, n: int)
    requires
        1 <= n <= ds.len(),
    ensures
        0 <= last_largest(ds, n) < n,
        forall|j: int| 0 <= j < n ==> #[trigger] ds[j].total <= ds[last_largest(ds, n)].total,
        forall|j: int|
            last_largest(ds, n) < j < n ==> #[trigger] ds[j].total < ds[last_largest(ds, n)].total,
    decreases n,
{
    if n > 1 {
        lemma_last_largest(ds, n - 1);
    }
}

/// Uptime is shown as whole hours and the minutes past them: for any hours
/// `h` and minutes `m` below 60 with `seconds` in that minute, it reads
/// `{h}h {m}m`.
pub proof fn lemma_uptime_reads(seconds: nat, h: nat, m: nat)
    requires
        m < 60,
        h * 3600 + m * 60 <= seconds < h * 3600 + m * 60 + 60,
    ensures
        uptime_spec(seconds) == decimal(h) + seq!['h', ' '] + decimal(m) + seq!['m'],
{
    assert(seconds / 3600 == h) by (nonlinear_arith)
        requires
            m < 60,
            h * 3600 + m * 60 <= seconds < h * 3600 + m * 60 + 60,
    ;
    assert((seconds % 3600) / 60 == m) by (nonlinear_arith)
        requires
            m < 60,
            h * 3600 + m * 60 <= seconds < h * 3600 + m * 60 + 60,
            seconds / 3600 == h,
    ;
}

// ---------------------------------------------------------------------------
// Temperature sensors.
// ---------------------------------------------------------------------------

/// A sensor label, in small letters, that names a processor sensor.
pub open spec fn names_cpu_sensor(lower: Seq<char>) -> bool {
    contains(lower, "cpu"@) || contains(lower, "core"@) || contains(lower, "package"@)
}

/// Whether a sensor label, in small letters, names a processor sensor.
pub fn mentions_cpu(lower: &str) -> (b: bool)
    ensures
        b == names_cpu_sensor(lower@),
        b <==> (contains(lower@, "cpu"@) || contains(lower@, "core"@) || contains(
            lower@,
            "package"@,
        )),
{
    let v = chars_of(lower);
    let cpu = chars_of("cpu");
    let core = chars_of("core");
    let package = chars_of("package");
    proof {
        lemma_find_contains(v@, cpu@);
        lemma_find_contains(v@, core@);
        lemma_find_contains(v@, package@);
        assert(v@.subrange(0, v@.len() as int) =~= v@);
    }
    find_in(&v, v.len(), &cpu, 0).is_some() || find_in(&v, v.len(), &core, 0).is_some()
        || find_in(&v, v.len(), &package, 0).is_some()
}

/// A sensor is a processor's exactly when its label, in small letters,
/// holds one of the words `cpu`, `core` or `package`; no other word makes it one.
pub proof fn lemma_cpu_sensor_words(lower: Seq<char>)
    ensures
        names_cpu_sensor(lower) <==> (contains(lower, "cpu"@) || contains(lower, "core"@)
            || contains(lower, "package"@)),
        !contains(lower, "cpu"@) && !contains(lower, "core"@) && !contains(lower, "package"@)
            ==> !names_cpu_sensor(lower),
{
}

/// Whether the sensor with `label` is one of the processor's.
pub fn is_cpu_sensor(label: &str) -> (b: bool)
    ensures
        b == names_cpu_sensor(lowercase(label@)),
        b <==> (contains(lowercase(label@), "cpu"@) || contains(lowercase(label@), "core"@)
            || contains(lowercase(label@), "package"@)),
{
    let lower = to_lowercase(label);
    mentions_cpu(lower.as_str())
}

} // verus!
