use vstd::prelude::*;
use vstd::string::*;

verus! {

/// Seven-line, terminal-safe PRISMOS wordmark. The renderer colors each
/// two-column slice, giving the mark a cyan-to-pink gradient.
pub const LOGO: [&'static str; 7] = [
    "████  ████  ███  ████  █   █  ███   ███ ",
    "█   █ █   █  █  █     ██ ██ █   █ █    ",
    "████  ████   █   ███  █ █ █ █   █  ███ ",
    "█     █ █    █      █ █   █ █   █     █",
    "█     █  █  ███ ████  █   █  ███  ████ ",
    "                                             ",
    "              P R I S M O S                  ",
];

/// Characters in line `i` of the logo.
pub open spec fn logo_line(i: int) -> Seq<char> {
    LOGO@[i]@
}

/// The widest of the first `n` logo lines, counted in characters.
pub open spec fn widest_of(n: int) -> nat
    decreases n,
{
    if n <= 0 {
        0
    } else {
        let rest = widest_of(n - 1);
        let here = logo_line(n - 1).len();
        if here > rest { here } else { rest }
    }
}

/// The widest logo line, counted in characters.
pub open spec fn spec_logo_width() -> nat {
    widest_of(7)
}

/// Every logo line is at most as wide as the widest one.
pub proof fn lemma_logo_lines_fit(i: int)
    requires
        0 <= i < 7,
    ensures
        logo_line(i).len() <= spec_logo_width(),
{
    lemma_widest_bounds(7, i);
}

proof fn lemma_widest_bounds(n: int, i: int)
    requires
        0 <= i < n,
    ensures
        logo_line(i).len() <= widest_of(n),
    decreases n,
{
    if i < n - 1 {
        lemma_widest_bounds(n - 1, i);
    }
}

/// The logo is 45 characters wide.
pub proof fn lemma_logo_width_value()
    ensures
        spec_logo_width() == 45,
{
    reveal_with_fuel(widest_of, 8);
    assert(spec_logo_width() == 45) by {
        reveal_strlit("████  ████  ███  ████  █   █  ███   ███ ");
        reveal_strlit("█   █ █   █  █  █     ██ ██ █   █ █    ");
        reveal_strlit("████  ████   █   ███  █ █ █ █   █  ███ ");
        reveal_strlit("█     █ █    █      █ █   █ █   █     █");
        reveal_strlit("█     █  █  ███ ████  █   █  ███  ████ ");
        reveal_strlit("                                             ");
        reveal_strlit("              P R I S M O S                  ");
    }
}

/// The widest line of the logo, counted in characters.
pub fn logo_width() -> (w: usize)
    ensures
        w == spec_logo_width(),
        w == 45,
{
    proof {
        lemma_logo_width_value();
    }
    let mut best: usize = 0;
    let mut i: usize = 0;
    while i < 7
        invariant
            i <= 7,
            best == widest_of(i as int),
        decreases 7 - i,
    {
        let n = LOGO[i].unicode_len();
        if n > best {
            best = n;
        }
        i = i + 1;
    }
    best
}

/// No logo line holds an escape character.
pub proof fn lemma_logo_has_no_escape(i: int)
    requires
        0 <= i < 7,
    ensures
        forall|j: int| 0 <= j < logo_line(i).len() ==> logo_line(i)[j] != '\x1b',
{
    assert(forall|j: int| 0 <= j < logo_line(i).len() ==> logo_line(i)[j] != '\x1b') by {
        reveal_strlit("████  ████  ███  ████  █   █  ███   ███ ");
        reveal_strlit("█   █ █   █  █  █     ██ ██ █   █ █    ");
        reveal_strlit("████  ████   █   ███  █ █ █ █   █  ███ ");
        reveal_strlit("█     █ █    █      █ █   █ █   █     █");
        reveal_strlit("█     █  █  ███ ████  █   █  ███  ████ ");
        reveal_strlit("                                             ");
        reveal_strlit("              P R I S M O S                  ");
    }
}

} // verus!
