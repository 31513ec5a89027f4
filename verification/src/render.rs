use vstd::prelude::*;
use vstd::string::*;

use crate::ascii::{lemma_logo_lines_fit, lemma_logo_width_value, logo_line, logo_width, spec_logo_width, LOGO};
use crate::terminal::{
    blue, cyan, orange, dim_on, gray, indigo, magenta, painted, pink, purple, reset, violet, white, Rgb,
    Terminal,
};
use crate::text::{
    digit, first_index,
    copy_str, cut, cut_to, lemma_shortened_len, lemma_trim_end_space_len,
    chars_of, decimal, fill, pad_left, pad_right, push_char, push_decimal, push_repeat, repeat,
    repeat_char, shorten, shortened, trim_end, trim_end_space,
};

verus! {

// ---------------------------------------------------------------------------
// The gradient logo.
// ---------------------------------------------------------------------------

/// Color `k` of the logo gradient, cyan through pink.
pub open spec fn gradient_color(k: int) -> Rgb {
    if k <= 0 {
        Rgb { r: 41, g: 213, b: 255 }
    } else if k == 1 {
        Rgb { r: 66, g: 133, b: 255 }
    } else if k == 2 {
        Rgb { r: 99, g: 102, b: 241 }
    } else if k == 3 {
        Rgb { r: 139, g: 92, b: 246 }
    } else if k == 4 {
        Rgb { r: 168, g: 85, b: 247 }
    } else if k == 5 {
        Rgb { r: 217, g: 70, b: 239 }
    } else {
        Rgb { r: 236, g: 72, b: 153 }
    }
}

/// Which gradient color column `i` of a logo line gets: columns go in
/// two-column slices, and the seven colors are spread evenly over the logo's
/// width by the slice's first column, the last color holding past it.
pub open spec fn gradient_slot(i: int) -> int {
    let k = (2 * (i / 2)) * 7 / (spec_logo_width() as int);
    if k > 6 {
        6
    } else {
        k
    }
}

/// `line` with each character painted bold in its gradient color.
pub open spec fn gradient(color: bool, line: Seq<char>) -> Seq<char>
    decreases line.len(),
{
    if line.len() == 0 {
        Seq::empty()
    } else {
        gradient(color, line.drop_last()) + painted(
            color,
            seq![line.last()],
            gradient_color(gradient_slot(line.len() - 1)),
            true,
        )
    }
}

/// Without color a gradient line is the line itself.
pub proof fn lemma_gradient_plain(line: Seq<char>)
    ensures
        gradient(false, line) == line,
    decreases line.len(),
{
    if line.len() > 0 {
        lemma_gradient_plain(line.drop_last());
        assert(line.drop_last() + seq![line.last()] =~= line);
    }
}

/// The logo is colored in two-column slices: columns `2k` and `2k + 1`
/// always get the same color of the gradient.
pub proof fn lemma_gradient_pairs(k: int)
    requires
        0 <= k,
    ensures
        gradient_color(gradient_slot(2 * k)) == gradient_color(gradient_slot(2 * k + 1)),
{
    assert((2 * k) / 2 == k);
    assert((2 * k + 1) / 2 == k);
}

fn gradient_color_of(k: usize) -> (c: Rgb)
    requires
        k <= 6,
    ensures
        c == gradient_color(k as int),
{
    match k {
        0 => cyan(),
        1 => blue(),
        2 => indigo(),
        3 => violet(),
        4 => purple(),
        5 => magenta(),
        _ => pink(),
    }
}

/// `line` painted with the logo gradient, one character at a time.
pub fn gradient_logo(t: &Terminal, line: &str) -> (s: String)
    ensures
        s@ == gradient(t.color, line@),
{
    let v = chars_of(line);
    let width = logo_width();
    let mut s = String::new();
    let mut i: usize = 0;
    while i < v.len()
        invariant
            i <= v@.len(),
            v@ == line@,
            width == spec_logo_width(),
            width == 45,
            s@ == gradient(t.color, v@.take(i as int)),
        decreases v@.len() - i,
    {
        let first = 2 * (i / 2);
        let slot: usize = if first >= width {
            6
        } else if first * 7 / width > 6 {
            6
        } else {
            first * 7 / width
        };
        assert(slot == gradient_slot(i as int)) by {
            if first >= width {
                assert(first * 7 / 45 >= 7) by (nonlinear_arith)
                    requires
                        first >= 45,
                ;
            }
        }
        let mut one = String::new();
        push_char(&mut one, v[i]);
        let piece = t.paint(one.as_str(), gradient_color_of(slot), true);
        s.append(piece.as_str());
        assert(v@.take(i + 1).drop_last() =~= v@.take(i as int));
        i = i + 1;
    }
    assert(v@.take(v@.len() as int) =~= v@);
    s
}


// ---------------------------------------------------------------------------
// The information rows.
// ---------------------------------------------------------------------------

/// One line of the information column: a label, its value and the label's
/// color.
pub struct Row {
    pub label: String,
    pub value: String,
    pub color: Rgb,
}

impl View for Row {
    type V = (Seq<char>, Seq<char>, Rgb);

    open spec fn view(&self) -> (Seq<char>, Seq<char>, Rgb) {
        (self.label@, self.value@, self.color)
    }
}

/// The system facts that the information column shows, each already in the
/// words it is shown in (the two RAM figures as decimal numbers of GB).
pub struct InfoFields {
    pub os: String,
    pub kernel: String,
    pub shell: String,
    pub compositor: String,
    pub window_manager: String,
    pub terminal: String,
    pub cpu: String,
    pub gpu: String,
    pub ram_used: String,
    pub ram_total: String,
    pub packages: Option<usize>,
    pub theme: String,
    pub icons: String,
    pub font: String,
    pub uptime: String,
}

/// How a package count is shown: its number, or `N/A` when none is known.
pub open spec fn packages_text(p: Option<usize>) -> Seq<char> {
    match p {
        Some(n) => decimal(n as nat),
        None => "N/A"@,
    }
}

/// The rows of the information column, in order, for `f`.
pub open spec fn info_rows_spec(f: InfoFields) -> Seq<(Seq<char>, Seq<char>, Rgb)> {
    seq![
        ("OS"@, f.os@, Rgb { r: 41, g: 213, b: 255 }),
        ("Kernel"@, "Linux "@ + f.kernel@, Rgb { r: 41, g: 213, b: 255 }),
        ("Shell"@, f.shell@, Rgb { r: 41, g: 213, b: 255 }),
        ("Compositor"@, f.compositor@, Rgb { r: 41, g: 213, b: 255 }),
        ("Window Manager"@, f.window_manager@, Rgb { r: 41, g: 213, b: 255 }),
        ("Terminal"@, f.terminal@, Rgb { r: 41, g: 213, b: 255 }),
        ("CPU"@, f.cpu@, Rgb { r: 99, g: 102, b: 241 }),
        ("GPU"@, f.gpu@, Rgb { r: 168, g: 85, b: 247 }),
        ("RAM"@, f.ram_used@ + " GB / "@ + f.ram_total@ + " GB"@, Rgb { r: 168, g: 85, b: 247 }),
        ("Packages"@, packages_text(f.packages), Rgb { r: 168, g: 85, b: 247 }),
        ("Theme"@, f.theme@, Rgb { r: 139, g: 92, b: 246 }),
        ("Icons"@, f.icons@, Rgb { r: 139, g: 92, b: 246 }),
        ("Font"@, f.font@, Rgb { r: 66, g: 133, b: 255 }),
        ("Uptime"@, f.uptime@, Rgb { r: 66, g: 133, b: 255 }),
    ]
}

fn row(label: &str, value: String, color: Rgb) -> (r: Row)
    ensures
        r@ == (label@, value@, color),
{
    Row { label: String::from_str(label), value, color }
}

/// The rows of the information column for `f`: OS, Kernel, Shell,
/// Compositor, Window Manager, Terminal, CPU, GPU, RAM, Packages, Theme,
/// Icons, Font and Uptime.
pub fn info_rows(f: &InfoFields) -> (rows: Vec<Row>)
    ensures
        rows@.len() == 14,
        forall|i: int| 0 <= i < 14 ==> #[trigger] rows@[i]@ == info_rows_spec(*f)[i],
{
    let mut rows: Vec<Row> = Vec::new();
    rows.push(row("OS", copy_str(f.os.as_str()), cyan()));
    let mut kernel = String::from_str("Linux ");
    kernel.append(f.kernel.as_str());
    rows.push(row("Kernel", kernel, cyan()));
    rows.push(row("Shell", copy_str(f.shell.as_str()), cyan()));
    rows.push(row("Compositor", copy_str(f.compositor.as_str()), cyan()));
    rows.push(row("Window Manager", copy_str(f.window_manager.as_str()), cyan()));
    rows.push(row("Terminal", copy_str(f.terminal.as_str()), cyan()));
    rows.push(row("CPU", copy_str(f.cpu.as_str()), indigo()));
    rows.push(row("GPU", copy_str(f.gpu.as_str()), purple()));
    let mut ram = copy_str(f.ram_used.as_str());
    ram.append(" GB / ");
    ram.append(f.ram_total.as_str());
    ram.append(" GB");
    rows.push(row("RAM", ram, purple()));
    let packages = match f.packages {
        Some(n) => {
            let mut s = String::new();
            push_decimal(&mut s, n as u64);
            assert(s@ =~= decimal(n as nat));
            s
        },
        None => String::from_str("N/A"),
    };
    rows.push(row("Packages", packages, purple()));
    rows.push(row("Theme", copy_str(f.theme.as_str()), violet()));
    rows.push(row("Icons", copy_str(f.icons.as_str()), violet()));
    rows.push(row("Font", copy_str(f.font.as_str()), blue()));
    rows.push(row("Uptime", copy_str(f.uptime.as_str()), blue()));
    assert forall|i: int| 0 <= i < 14 implies #[trigger] rows@[i]@ == info_rows_spec(*f)[i] by {
        assert(("Linux "@ + f.kernel@) =~= "Linux "@ + f.kernel@);
    }
    rows
}

/// What the row labelled `label` shows of `f`: the field that the label
/// names, the kernel after `Linux `, the RAM as used and total GB, the
/// package count or `N/A`.
pub open spec fn shown_for(f: InfoFields, label: Seq<char>) -> Seq<char> {
    if label == "OS"@ {
        f.os@
    } else if label == "Kernel"@ {
        "Linux "@ + f.kernel@
    } else if label == "Shell"@ {
        f.shell@
    } else if label == "Compositor"@ {
        f.compositor@
    } else if label == "Window Manager"@ {
        f.window_manager@
    } else if label == "Terminal"@ {
        f.terminal@
    } else if label == "CPU"@ {
        f.cpu@
    } else if label == "GPU"@ {
        f.gpu@
    } else if label == "RAM"@ {
        f.ram_used@ + " GB / "@ + f.ram_total@ + " GB"@
    } else if label == "Packages"@ {
        packages_text(f.packages)
    } else if label == "Theme"@ {
        f.theme@
    } else if label == "Icons"@ {
        f.icons@
    } else if label == "Font"@ {
        f.font@
    } else {
        f.uptime@
    }
}

/// The color of the label `label`: cyan for the system rows, indigo for the
/// processor, purple for the graphics, memory and packages, violet for the
/// theme and icons, blue for the font and uptime.
pub open spec fn color_for(label: Seq<char>) -> Rgb {
    if label == "CPU"@ {
        Rgb { r: 99, g: 102, b: 241 }
    } else if label == "GPU"@ || label == "RAM"@ || label == "Packages"@ {
        Rgb { r: 168, g: 85, b: 247 }
    } else if label == "Theme"@ || label == "Icons"@ {
        Rgb { r: 139, g: 92, b: 246 }
    } else if label == "Font"@ || label == "Uptime"@ {
        Rgb { r: 66, g: 133, b: 255 }
    } else {
        Rgb { r: 41, g: 213, b: 255 }
    }
}

/// Each information row shows the field its label names: whatever the
/// fields hold, the value of every row is `shown_for` its own label, and
/// the labels come in the order OS, Kernel, Shell, Compositor, Window
/// Manager, Terminal, CPU, GPU, RAM, Packages, Theme, Icons, Font, Uptime.
pub proof fn lemma_rows_show_their_fields(f: InfoFields)
    ensures
        info_rows_spec(f).len() == 14,
        forall|i: int|
            #![trigger info_rows_spec(f)[i]]
            0 <= i < 14 ==> info_rows_spec(f)[i].1 == shown_for(f, info_rows_spec(f)[i].0)
                && info_rows_spec(f)[i].2 == color_for(info_rows_spec(f)[i].0),
        info_rows_spec(f).map_values(|r: (Seq<char>, Seq<char>, Rgb)| r.0) == seq![
            "OS"@,
            "Kernel"@,
            "Shell"@,
            "Compositor"@,
            "Window Manager"@,
            "Terminal"@,
            "CPU"@,
            "GPU"@,
            "RAM"@,
            "Packages"@,
            "Theme"@,
            "Icons"@,
            "Font"@,
            "Uptime"@,
        ],
{
    reveal_strlit("OS");
    reveal_strlit("Kernel");
    reveal_strlit("Shell");
    reveal_strlit("Compositor");
    reveal_strlit("Window Manager");
    reveal_strlit("Terminal");
    reveal_strlit("CPU");
    reveal_strlit("GPU");
    reveal_strlit("RAM");
    reveal_strlit("Packages");
    reveal_strlit("Theme");
    reveal_strlit("Icons");
    reveal_strlit("Font");
    reveal_strlit("Uptime");
    let rows = info_rows_spec(f);
    assert(rows.map_values(|r: (Seq<char>, Seq<char>, Rgb)| r.0) =~= seq![
        "OS"@,
        "Kernel"@,
        "Shell"@,
        "Compositor"@,
        "Window Manager"@,
        "Terminal"@,
        "CPU"@,
        "GPU"@,
        "RAM"@,
        "Packages"@,
        "Theme"@,
        "Icons"@,
        "Font"@,
        "Uptime"@,
    ]);
    assert forall|i: int| #![trigger rows[i]] 0 <= i < 14 implies rows[i].1 == shown_for(f, rows[i].0)
        && rows[i].2 == color_for(rows[i].0) by {
        if i == 0 {
            assert("OS"@[0] != "Kernel"@[0]);
            assert("OS"@[0] != "Shell"@[0]);
            assert("OS"@[0] != "Compositor"@[0]);
            assert("OS"@[0] != "Window Manager"@[0]);
            assert("OS"@[0] != "Terminal"@[0]);
            assert("OS"@[0] != "CPU"@[0]);
            assert("OS"@[0] != "GPU"@[0]);
            assert("OS"@[0] != "RAM"@[0]);
            assert("OS"@[0] != "Packages"@[0]);
            assert("OS"@[0] != "Theme"@[0]);
            assert("OS"@[0] != "Icons"@[0]);
            assert("OS"@[0] != "Font"@[0]);
            assert("OS"@[0] != "Uptime"@[0]);
        } else if i == 1 {
            assert("Kernel"@[0] != "OS"@[0]);
            assert("Kernel"@[0] != "Shell"@[0]);
            assert("Kernel"@[0] != "Compositor"@[0]);
            assert("Kernel"@[0] != "Window Manager"@[0]);
            assert("Kernel"@[0] != "Terminal"@[0]);
            assert("Kernel"@[0] != "CPU"@[0]);
            assert("Kernel"@[0] != "GPU"@[0]);
            assert("Kernel"@[0] != "RAM"@[0]);
            assert("Kernel"@[0] != "Packages"@[0]);
            assert("Kernel"@[0] != "Theme"@[0]);
            assert("Kernel"@[0] != "Icons"@[0]);
            assert("Kernel"@[0] != "Font"@[0]);
            assert("Kernel"@[0] != "Uptime"@[0]);
        } else if i == 2 {
            assert("Shell"@[0] != "OS"@[0]);
            assert("Shell"@[0] != "Kernel"@[0]);
            assert("Shell"@[0] != "Compositor"@[0]);
            assert("Shell"@[0] != "Window Manager"@[0]);
            assert("Shell"@[0] != "Terminal"@[0]);
            assert("Shell"@[0] != "CPU"@[0]);
            assert("Shell"@[0] != "GPU"@[0]);
            assert("Shell"@[0] != "RAM"@[0]);
            assert("Shell"@[0] != "Packages"@[0]);
            assert("Shell"@[0] != "Theme"@[0]);
            assert("Shell"@[0] != "Icons"@[0]);
            assert("Shell"@[0] != "Font"@[0]);
            assert("Shell"@[0] != "Uptime"@[0]);
        } else if i == 3 {
            assert("Compositor"@[0] != "OS"@[0]);
            assert("Compositor"@[0] != "Kernel"@[0]);
            assert("Compositor"@[0] != "Shell"@[0]);
            assert("Compositor"@[0] != "Window Manager"@[0]);
            assert("Compositor"@[0] != "Terminal"@[0]);
            assert("Compositor"@[1] != "CPU"@[1]);
            assert("Compositor"@[0] != "GPU"@[0]);
            assert("Compositor"@[0] != "RAM"@[0]);
            assert("Compositor"@[0] != "Packages"@[0]);
            assert("Compositor"@[0] != "Theme"@[0]);
            assert("Compositor"@[0] != "Icons"@[0]);
            assert("Compositor"@[0] != "Font"@[0]);
            assert("Compositor"@[0] != "Uptime"@[0]);
        } else if i == 4 {
            assert("Window Manager"@[0] != "OS"@[0]);
            assert("Window Manager"@[0] != "Kernel"@[0]);
            assert("Window Manager"@[0] != "Shell"@[0]);
            assert("Window Manager"@[0] != "Compositor"@[0]);
            assert("Window Manager"@[0] != "Terminal"@[0]);
            assert("Window Manager"@[0] != "CPU"@[0]);
            assert("Window Manager"@[0] != "GPU"@[0]);
            assert("Window Manager"@[0] != "RAM"@[0]);
            assert("Window Manager"@[0] != "Packages"@[0]);
            assert("Window Manager"@[0] != "Theme"@[0]);
            assert("Window Manager"@[0] != "Icons"@[0]);
            assert("Window Manager"@[0] != "Font"@[0]);
            assert("Window Manager"@[0] != "Uptime"@[0]);
        } else if i == 5 {
            assert("Terminal"@[0] != "OS"@[0]);
            assert("Terminal"@[0] != "Kernel"@[0]);
            assert("Terminal"@[0] != "Shell"@[0]);
            assert("Terminal"@[0] != "Compositor"@[0]);
            assert("Terminal"@[0] != "Window Manager"@[0]);
            assert("Terminal"@[0] != "CPU"@[0]);
            assert("Terminal"@[0] != "GPU"@[0]);
            assert("Terminal"@[0] != "RAM"@[0]);
            assert("Terminal"@[0] != "Packages"@[0]);
            assert("Terminal"@[1] != "Theme"@[1]);
            assert("Terminal"@[0] != "Icons"@[0]);
            assert("Terminal"@[0] != "Font"@[0]);
            assert("Terminal"@[0] != "Uptime"@[0]);
        } else if i == 6 {
            assert("CPU"@[0] != "OS"@[0]);
            assert("CPU"@[0] != "Kernel"@[0]);
            assert("CPU"@[0] != "Shell"@[0]);
            assert("CPU"@[1] != "Compositor"@[1]);
            assert("CPU"@[0] != "Window Manager"@[0]);
            assert("CPU"@[0] != "Terminal"@[0]);
            assert("CPU"@[0] != "GPU"@[0]);
            assert("CPU"@[0] != "RAM"@[0]);
            assert("CPU"@[0] != "Packages"@[0]);
            assert("CPU"@[0] != "Theme"@[0]);
            assert("CPU"@[0] != "Icons"@[0]);
            assert("CPU"@[0] != "Font"@[0]);
            assert("CPU"@[0] != "Uptime"@[0]);
        } else if i == 7 {
            assert("GPU"@[0] != "OS"@[0]);
            assert("GPU"@[0] != "Kernel"@[0]);
            assert("GPU"@[0] != "Shell"@[0]);
            assert("GPU"@[0] != "Compositor"@[0]);
            assert("GPU"@[0] != "Window Manager"@[0]);
            assert("GPU"@[0] != "Terminal"@[0]);
            assert("GPU"@[0] != "CPU"@[0]);
            assert("GPU"@[0] != "RAM"@[0]);
            assert("GPU"@[0] != "Packages"@[0]);
            assert("GPU"@[0] != "Theme"@[0]);
            assert("GPU"@[0] != "Icons"@[0]);
            assert("GPU"@[0] != "Font"@[0]);
            assert("GPU"@[0] != "Uptime"@[0]);
        } else if i == 8 {
            assert("RAM"@[0] != "OS"@[0]);
            assert("RAM"@[0] != "Kernel"@[0]);
            assert("RAM"@[0] != "Shell"@[0]);
            assert("RAM"@[0] != "Compositor"@[0]);
            assert("RAM"@[0] != "Window Manager"@[0]);
            assert("RAM"@[0] != "Terminal"@[0]);
            assert("RAM"@[0] != "CPU"@[0]);
            assert("RAM"@[0] != "GPU"@[0]);
            assert("RAM"@[0] != "Packages"@[0]);
            assert("RAM"@[0] != "Theme"@[0]);
            assert("RAM"@[0] != "Icons"@[0]);
            assert("RAM"@[0] != "Font"@[0]);
            assert("RAM"@[0] != "Uptime"@[0]);
        } else if i == 9 {
            assert("Packages"@[0] != "OS"@[0]);
            assert("Packages"@[0] != "Kernel"@[0]);
            assert("Packages"@[0] != "Shell"@[0]);
            assert("Packages"@[0] != "Compositor"@[0]);
            assert("Packages"@[0] != "Window Manager"@[0]);
            assert("Packages"@[0] != "Terminal"@[0]);
            assert("Packages"@[0] != "CPU"@[0]);
            assert("Packages"@[0] != "GPU"@[0]);
            assert("Packages"@[0] != "RAM"@[0]);
            assert("Packages"@[0] != "Theme"@[0]);
            assert("Packages"@[0] != "Icons"@[0]);
            assert("Packages"@[0] != "Font"@[0]);
            assert("Packages"@[0] != "Uptime"@[0]);
        } else if i == 10 {
            assert("Theme"@[0] != "OS"@[0]);
            assert("Theme"@[0] != "Kernel"@[0]);
            assert("Theme"@[0] != "Shell"@[0]);
            assert("Theme"@[0] != "Compositor"@[0]);
            assert("Theme"@[0] != "Window Manager"@[0]);
            assert("Theme"@[1] != "Terminal"@[1]);
            assert("Theme"@[0] != "CPU"@[0]);
            assert("Theme"@[0] != "GPU"@[0]);
            assert("Theme"@[0] != "RAM"@[0]);
            assert("Theme"@[0] != "Packages"@[0]);
            assert("Theme"@[0] != "Icons"@[0]);
            assert("Theme"@[0] != "Font"@[0]);
            assert("Theme"@[0] != "Uptime"@[0]);
        } else if i == 11 {
            assert("Icons"@[0] != "OS"@[0]);
            assert("Icons"@[0] != "Kernel"@[0]);
            assert("Icons"@[0] != "Shell"@[0]);
            assert("Icons"@[0] != "Compositor"@[0]);
            assert("Icons"@[0] != "Window Manager"@[0]);
            assert("Icons"@[0] != "Terminal"@[0]);
            assert("Icons"@[0] != "CPU"@[0]);
            assert("Icons"@[0] != "GPU"@[0]);
            assert("Icons"@[0] != "RAM"@[0]);
            assert("Icons"@[0] != "Packages"@[0]);
            assert("Icons"@[0] != "Theme"@[0]);
            assert("Icons"@[0] != "Font"@[0]);
            assert("Icons"@[0] != "Uptime"@[0]);
        } else if i == 12 {
            assert("Font"@[0] != "OS"@[0]);
            assert("Font"@[0] != "Kernel"@[0]);
            assert("Font"@[0] != "Shell"@[0]);
            assert("Font"@[0] != "Compositor"@[0]);
            assert("Font"@[0] != "Window Manager"@[0]);
            assert("Font"@[0] != "Terminal"@[0]);
            assert("Font"@[0] != "CPU"@[0]);
            assert("Font"@[0] != "GPU"@[0]);
            assert("Font"@[0] != "RAM"@[0]);
            assert("Font"@[0] != "Packages"@[0]);
            assert("Font"@[0] != "Theme"@[0]);
            assert("Font"@[0] != "Icons"@[0]);
            assert("Font"@[0] != "Uptime"@[0]);
        } else {
            assert("Uptime"@[0] != "OS"@[0]);
            assert("Uptime"@[0] != "Kernel"@[0]);
            assert("Uptime"@[0] != "Shell"@[0]);
            assert("Uptime"@[0] != "Compositor"@[0]);
            assert("Uptime"@[0] != "Window Manager"@[0]);
            assert("Uptime"@[0] != "Terminal"@[0]);
            assert("Uptime"@[0] != "CPU"@[0]);
            assert("Uptime"@[0] != "GPU"@[0]);
            assert("Uptime"@[0] != "RAM"@[0]);
            assert("Uptime"@[0] != "Packages"@[0]);
            assert("Uptime"@[0] != "Theme"@[0]);
            assert("Uptime"@[0] != "Icons"@[0]);
            assert("Uptime"@[0] != "Font"@[0]);
        }
    }
}

// ---------------------------------------------------------------------------
// The two layouts and the report around them.
// ---------------------------------------------------------------------------

/// The rows as label, value and color.
pub open spec fn rows_view(rows: Seq<Row>) -> Seq<(Seq<char>, Seq<char>, Rgb)> {
    rows.map_values(|r: Row| r@)
}

/// The bar between the logo and the information column.
pub open spec fn divider(unicode: bool) -> Seq<char> {
    if unicode {
        seq!['│']
    } else {
        seq!['|']
    }
}

/// The character that rules are drawn with.
pub open spec fn rule_char(unicode: bool) -> char {
    if unicode {
        '─'
    } else {
        '-'
    }
}

/// How many rows come before the first logo line, so that the logo sits in
/// the middle of `n` rows.
pub open spec fn logo_offset(n: nat) -> int {
    (if n > 7 {
        n - 7
    } else {
        0
    }) / 2
}

/// The logo line beside row `i` of `n`, or nothing above and below the logo.
pub open spec fn logo_beside(n: nat, i: int) -> Seq<char> {
    let off = logo_offset(n);
    if off <= i && i - off < 7 {
        logo_line(i - off)
    } else {
        Seq::empty()
    }
}

/// The characters left for a value when `used` of `width` are taken.
pub open spec fn room(width: nat, used: nat) -> nat {
    if used <= width {
        (width - used) as nat
    } else {
        0
    }
}

/// The characters of a side-by-side line other than its value: a margin,
/// the logo column, the divider with its spacing, the label, colon and space.
pub open spec fn side_fixed(label_len: nat) -> nat {
    1 + spec_logo_width() + 2 + 3 + label_len + 2
}

/// Line of the side-by-side layout for row `r` with logo line `raw`.
pub open spec fn side_line(
    t: Terminal,
    r: (Seq<char>, Seq<char>, Rgb),
    raw: Seq<char>,
) -> Seq<char> {
    seq![' '] + gradient(t.color, raw) + repeat(' ', fill(raw.len(), spec_logo_width())) + seq![
        ' ',
        ' ',
    ] + painted(t.color, divider(t.unicode), Rgb { r: 156, g: 163, b: 175 }, false) + seq![
        ' ',
        ' ',
    ] + painted(t.color, r.0.push(':'), r.2, true) + seq![' '] + painted(
        t.color,
        shortened(r.1, room(t.width as nat, side_fixed(r.0.len()))),
        Rgb { r: 229, g: 231, b: 235 },
        false,
    )
}

/// The side-by-side layout: each row beside its slice of the logo.
pub open spec fn side_by_side_spec(t: Terminal, rows: Seq<(Seq<char>, Seq<char>, Rgb)>) -> Seq<
    Seq<char>,
> {
    Seq::new(rows.len(), |i: int| side_line(t, rows[i], logo_beside(rows.len(), i)))
}

/// Line of the stacked layout for row `r`.
pub open spec fn stacked_row(t: Terminal, r: (Seq<char>, Seq<char>, Rgb)) -> Seq<char> {
    seq![' '] + painted(t.color, r.0.push(':'), r.2, true) + seq![' '] + painted(
        t.color,
        shortened(r.1, room(t.width as nat, (r.0.len() + 4) as nat)),
        Rgb { r: 229, g: 231, b: 235 },
        false,
    )
}

/// Line `k` of the logo in the stacked layout: the logo line without its
/// trailing blanks, cut to what the terminal leaves beside the margin.
pub open spec fn stacked_logo_line(t: Terminal, k: int) -> Seq<char> {
    seq![' '] + gradient(t.color, cut(trim_end_space(logo_line(k)), room(t.width as nat, 1)))
}

/// The stacked layout: the logo, an empty line, then the rows.
pub open spec fn stacked_spec(t: Terminal, rows: Seq<(Seq<char>, Seq<char>, Rgb)>) -> Seq<
    Seq<char>,
> {
    Seq::new(7, |k: int| stacked_logo_line(t, k)) + seq![
        Seq::<char>::empty(),
    ] + Seq::new(rows.len(), |i: int| stacked_row(t, rows[i]))
}

/// A rule across the whole width.
pub open spec fn rule_line(t: Terminal) -> Seq<char> {
    painted(
        t.color,
        repeat(rule_char(t.unicode), t.width as nat),
        Rgb { r: 156, g: 163, b: 175 },
        false,
    )
}

/// The report between its two rules: side by side from 100 columns on,
/// stacked below that.
pub open spec fn report_spec(t: Terminal, rows: Seq<(Seq<char>, Seq<char>, Rgb)>) -> Seq<
    Seq<char>,
> {
    seq![rule_line(t)] + (if t.width >= 100 {
        side_by_side_spec(t, rows)
    } else {
        stacked_spec(t, rows)
    }) + seq![rule_line(t)]
}

/// `label` followed by a colon, painted as a label.
fn label_text(t: &Terminal, label: &String, c: Rgb) -> (s: String)
    ensures
        s@ == painted(t.color, label@.push(':'), c, true),
{
    let mut l = String::from_str(label.as_str());
    push_char(&mut l, ':');
    t.paint(l.as_str(), c, true)
}

/// Characters of `s`.
fn count_chars(s: &String) -> (n: usize)
    ensures
        n == s@.len(),
{
    s.as_str().unicode_len()
}

/// Line of the side-by-side layout for row `r` beside logo line `raw`.
#[verifier::spinoff_prover]
#[verifier::rlimit(40)]
fn side_line_for(t: &Terminal, r: &Row, raw: &String) -> (line: String)
    ensures
        line@ == side_line(*t, r@, raw@),
{
    let left_width = logo_width();
    let raw_len = count_chars(&raw);
    let mut line = String::new();
    push_char(&mut line, ' ');
    let logo = gradient_logo(t, raw.as_str());
    line.append(logo.as_str());
    let pad: usize = if raw_len < left_width {
        left_width - raw_len
    } else {
        0
    };
    push_repeat(&mut line, ' ', pad);
    push_char(&mut line, ' ');
    push_char(&mut line, ' ');
    let mut bar = String::new();
    push_char(&mut bar, if t.unicode { '│' } else { '|' });
    assert(bar@ =~= divider(t.unicode));
    let bar_painted = t.paint(bar.as_str(), gray(), false);
    line.append(bar_painted.as_str());
    push_char(&mut line, ' ');
    push_char(&mut line, ' ');
    let label = label_text(t, &r.label, r.color);
    line.append(label.as_str());
    push_char(&mut line, ' ');
    let label_len = count_chars(&r.label);
    let avail: usize = if label_len <= t.width && t.width - label_len >= 53 {
        t.width - label_len - 53
    } else {
        0
    };
    assert(avail == room(t.width as nat, side_fixed(label_len as nat)));
    let value = shorten(r.value.as_str(), avail);
    let value_painted = t.paint(value.as_str(), white(), false);
    line.append(value_painted.as_str());
    assert(line@ =~= side_line(*t, r@, raw@));
    line
}

/// The lines of the side-by-side layout, one per row.
pub fn render_side_by_side(t: &Terminal, rows: &Vec<Row>) -> (lines: Vec<String>)
    ensures
        lines@.len() == rows@.len(),
        forall|i: int|
            0 <= i < rows@.len() ==> #[trigger] lines@[i]@ == side_by_side_spec(
                *t,
                rows_view(rows@),
            )[i],
{
    let n = rows.len();
    let offset: usize = (if n > 7 {
        n - 7
    } else {
        0
    }) / 2;
    let mut lines: Vec<String> = Vec::new();
    let mut i: usize = 0;
    while i < n
        invariant
            n == rows@.len(),
            i <= n,
            offset == logo_offset(n as nat),
            lines@.len() == i,
            forall|j: int|
                0 <= j < i ==> #[trigger] lines@[j]@ == side_by_side_spec(*t, rows_view(rows@))[j],
        decreases n - i,
    {
        let raw: String = if i >= offset && i - offset < 7 {
            String::from_str(LOGO[i - offset])
        } else {
            String::new()
        };
        assert(raw@ == logo_beside(n as nat, i as int));
        let r = &rows[i];
        let line = side_line_for(t, r, &raw);
        assert(rows_view(rows@)[i as int] == r@);
        lines.push(line);
        i = i + 1;
    }
    lines
}

/// The lines of the stacked layout: the logo, an empty line, then one line
/// per row.
pub fn render_stacked(t: &Terminal, rows: &Vec<Row>) -> (lines: Vec<String>)
    ensures
        lines@.len() == rows@.len() + 8,
        forall|i: int|
            0 <= i < rows@.len() + 8 ==> #[trigger] lines@[i]@ == stacked_spec(
                *t,
                rows_view(rows@),
            )[i],
{
    let ghost want = stacked_spec(*t, rows_view(rows@));
    let mut lines: Vec<String> = Vec::new();
    let mut k: usize = 0;
    while k < 7
        invariant
            k <= 7,
            want == stacked_spec(*t, rows_view(rows@)),
            lines@.len() == k,
            forall|j: int| 0 <= j < k ==> #[trigger] lines@[j]@ == want[j],
        decreases 7 - k,
    {
        let trimmed = trim_end(LOGO[k]);
        let avail: usize = if t.width >= 1 {
            t.width - 1
        } else {
            0
        };
        let fitted = cut_to(trimmed.as_str(), avail);
        let logo = gradient_logo(t, fitted.as_str());
        let mut line = String::new();
        push_char(&mut line, ' ');
        line.append(logo.as_str());
        assert(line@ =~= stacked_logo_line(*t, k as int));
        lines.push(line);
        k = k + 1;
    }
    lines.push(String::new());
    let n = rows.len();
    let mut i: usize = 0;
    while i < n
        invariant
            n == rows@.len(),
            i <= n,
            want == stacked_spec(*t, rows_view(rows@)),
            lines@.len() == 8 + i,
            forall|j: int| 0 <= j < 8 + i ==> #[trigger] lines@[j]@ == want[j],
        decreases n - i,
    {
        let r = &rows[i];
        let mut line = String::new();
        push_char(&mut line, ' ');
        let label = label_text(t, &r.label, r.color);
        line.append(label.as_str());
        push_char(&mut line, ' ');
        let label_len = count_chars(&r.label);
        let avail: usize = if label_len <= t.width && t.width - label_len >= 4 {
            t.width - label_len - 4
        } else {
            0
        };
        assert(avail == room(t.width as nat, (label_len + 4) as nat));
        let value = shorten(r.value.as_str(), avail);
        let value_painted = t.paint(value.as_str(), white(), false);
        line.append(value_painted.as_str());
        assert(line@ =~= stacked_row(*t, r@));
        assert(rows_view(rows@)[i as int] == r@);
        lines.push(line);
        i = i + 1;
    }
    lines
}

/// A rule across the whole width of the terminal.
pub fn rule(t: &Terminal) -> (s: String)
    ensures
        s@ == rule_line(*t),
{
    let line = repeat_char(if t.unicode { '─' } else { '-' }, t.width);
    t.paint(line.as_str(), gray(), false)
}

/// The report between and including its two rules: the side-by-side layout
/// from 100 columns on, the stacked one below.
pub fn report_lines(t: &Terminal, rows: &Vec<Row>) -> (lines: Vec<String>)
    ensures
        lines@.len() == report_spec(*t, rows_view(rows@)).len(),
        forall|i: int|
            0 <= i < lines@.len() ==> #[trigger] lines@[i]@ == report_spec(*t, rows_view(rows@))[i],
{
    let mut lines: Vec<String> = Vec::new();
    lines.push(rule(t));
    let body = if t.width >= 100 {
        render_side_by_side(t, rows)
    } else {
        render_stacked(t, rows)
    };
    let ghost want = report_spec(*t, rows_view(rows@));
    let ghost mid = if t.width >= 100 {
        side_by_side_spec(*t, rows_view(rows@))
    } else {
        stacked_spec(*t, rows_view(rows@))
    };
    assert(body@.len() == mid.len());
    let mut i: usize = 0;
    while i < body.len()
        invariant
            i <= body@.len(),
            body@.len() == mid.len(),
            forall|j: int| 0 <= j < body@.len() ==> #[trigger] body@[j]@ == mid[j],
            want == seq![rule_line(*t)] + mid + seq![rule_line(*t)],
            lines@.len() == 1 + i,
            forall|j: int| 0 <= j < 1 + i ==> #[trigger] lines@[j]@ == want[j],
        decreases body@.len() - i,
    {
        let line = String::from_str(body[i].as_str());
        lines.push(line);
        i = i + 1;
    }
    lines.push(rule(t));
    lines
}

// ---------------------------------------------------------------------------
// Usage meters.
// ---------------------------------------------------------------------------

/// How wide the label column of a meter is.
pub open spec fn meter_label_width(width: nat) -> nat {
    if width < 80 {
        13
    } else {
        17
    }
}

/// How many cells a meter's bar has on a terminal `width` columns wide:
/// what the label, suffix and brackets leave, held to 8..64.
pub open spec fn bar_width(width: nat) -> nat {
    let left = room(width, meter_label_width(width) + 5 + 8);
    if left < 8 {
        8
    } else if left > 64 {
        64
    } else {
        left
    }
}

/// The character of a filled cell.
pub open spec fn full_cell(unicode: bool) -> char {
    if unicode {
        '█'
    } else {
        '#'
    }
}

/// The character of an empty cell.
pub open spec fn empty_cell(unicode: bool) -> char {
    if unicode {
        '░'
    } else {
        '-'
    }
}

/// A bar of `bar_width` cells of which the first `filled` are filled: the
/// first half of them in `start`, the rest in `end`, the empty cells dim.
pub open spec fn bar_spec(t: Terminal, filled: nat, start: Rgb, end: Rgb) -> Seq<char> {
    let bw = bar_width(t.width as nat);
    let first = filled / 2;
    painted(t.color, repeat(full_cell(t.unicode), first), start, false) + painted(
        t.color,
        repeat(full_cell(t.unicode), (filled - first) as nat),
        end,
        false,
    ) + (if t.color {
        dim_on() + repeat(empty_cell(t.unicode), (bw - filled) as nat) + reset()
    } else {
        repeat(empty_cell(t.unicode), (bw - filled) as nat)
    })
}

/// A meter line: the label padded to its column, the bar in brackets, and
/// the suffix right-aligned in five columns.
pub open spec fn meter_spec(
    t: Terminal,
    label: Seq<char>,
    filled: nat,
    suffix: Seq<char>,
    start: Rgb,
    end: Rgb,
) -> Seq<char> {
    seq![' '] + label + repeat(' ', fill(label.len(), meter_label_width(t.width as nat))) + seq![
        ' ',
        '[',
    ] + bar_spec(t, filled, start, end) + seq![']', ' '] + repeat(' ', fill(suffix.len(), 5))
        + suffix
}

/// How many cells a meter's bar has on a terminal `width` columns wide.
pub fn meter_bar_width(width: usize) -> (w: usize)
    ensures
        w == bar_width(width as nat),
        8 <= w <= 64,
{
    let label_width: usize = if width < 80 {
        13
    } else {
        17
    };
    let used = label_width + 5 + 8;
    let left = if used <= width {
        width - used
    } else {
        0
    };
    if left < 8 {
        8
    } else if left > 64 {
        64
    } else {
        left
    }
}

/// The bar of a meter with `filled` of its cells filled.
fn meter_bar(t: &Terminal, filled: usize, start: Rgb, end: Rgb) -> (s: String)
    requires
        filled <= bar_width(t.width as nat),
    ensures
        s@ == bar_spec(*t, filled as nat, start, end),
{
    let bw = meter_bar_width(t.width);
    let full = if t.unicode { '█' } else { '#' };
    let empty = if t.unicode { '░' } else { '-' };
    let first = filled / 2;
    let head = repeat_char(full, first);
    let mut s = t.paint(head.as_str(), start, false);
    let tail = repeat_char(full, filled - first);
    let tail_painted = t.paint(tail.as_str(), end, false);
    s.append(tail_painted.as_str());
    if t.color {
        s.append("\x1b[2m");
        proof {
            reveal_strlit("\x1b[2m");
        }
        push_repeat(&mut s, empty, bw - filled);
        s.append("\x1b[0m");
        proof {
            reveal_strlit("\x1b[0m");
        }
    } else {
        push_repeat(&mut s, empty, bw - filled);
    }
    assert(s@ =~= bar_spec(*t, filled as nat, start, end));
    s
}

/// One usage meter: ` label [bar] suffix`, the bar `meter_bar_width` cells
/// wide with `filled` of them filled.
pub fn meter_line(
    t: &Terminal,
    label: &str,
    filled: usize,
    suffix: &str,
    start: Rgb,
    end: Rgb,
) -> (s: String)
    requires
        filled <= bar_width(t.width as nat),
    ensures
        s@ == meter_spec(*t, label@, filled as nat, suffix@, start, end),
{
    let label_width: usize = if t.width < 80 {
        13
    } else {
        17
    };
    let mut s = String::new();
    push_char(&mut s, ' ');
    let padded = pad_right(label, label_width);
    s.append(padded.as_str());
    push_char(&mut s, ' ');
    push_char(&mut s, '[');
    let bar = meter_bar(t, filled, start, end);
    s.append(bar.as_str());
    push_char(&mut s, ']');
    push_char(&mut s, ' ');
    let right = pad_left(suffix, 5);
    s.append(right.as_str());
    assert(s@ =~= meter_spec(*t, label@, filled as nat, suffix@, start, end));
    s
}

/// A reading that a meter shows: how many of its cells are filled and the
/// text after the bar.
pub struct Reading {
    pub filled: usize,
    pub suffix: String,
}

/// The four meters under the report: processor, memory and disk usage, and
/// temperature (empty and `N/A` when no temperature is known).
pub open spec fn meters_spec(
    t: Terminal,
    cpu: Reading,
    memory: Reading,
    disk: Reading,
    temperature: Option<Reading>,
) -> Seq<Seq<char>> {
    seq![
        meter_spec(
            t,
            "CPU Usage"@,
            cpu.filled as nat,
            cpu.suffix@,
            Rgb { r: 41, g: 213, b: 255 },
            Rgb { r: 66, g: 133, b: 255 },
        ),
        meter_spec(
            t,
            "Memory Usage"@,
            memory.filled as nat,
            memory.suffix@,
            Rgb { r: 217, g: 70, b: 239 },
            Rgb { r: 139, g: 92, b: 246 },
        ),
        meter_spec(
            t,
            "Disk Usage"@,
            disk.filled as nat,
            disk.suffix@,
            Rgb { r: 74, g: 168, b: 255 },
            Rgb { r: 66, g: 133, b: 255 },
        ),
        match temperature {
            Some(r) => meter_spec(
                t,
                "Temperature"@,
                r.filled as nat,
                r.suffix@,
                Rgb { r: 245, g: 158, b: 11 },
                Rgb { r: 180, g: 83, b: 9 },
            ),
            None => meter_spec(
                t,
                "Temperature"@,
                0,
                "N/A"@,
                Rgb { r: 245, g: 158, b: 11 },
                Rgb { r: 180, g: 83, b: 9 },
            ),
        },
    ]
}

/// The four meter lines under the report.
pub fn render_meters(
    t: &Terminal,
    cpu: &Reading,
    memory: &Reading,
    disk: &Reading,
    temperature: &Option<Reading>,
) -> (lines: Vec<String>)
    requires
        cpu.filled <= bar_width(t.width as nat),
        memory.filled <= bar_width(t.width as nat),
        disk.filled <= bar_width(t.width as nat),
        temperature matches Some(r) ==> r.filled <= bar_width(t.width as nat),
    ensures
        lines@.len() == 4,
        forall|i: int|
            0 <= i < 4 ==> #[trigger] lines@[i]@ == meters_spec(
                *t,
                *cpu,
                *memory,
                *disk,
                *temperature,
            )[i],
{
    let mut lines: Vec<String> = Vec::new();
    lines.push(meter_line(t, "CPU Usage", cpu.filled, cpu.suffix.as_str(), cyan(), blue()));
    lines.push(
        meter_line(t, "Memory Usage", memory.filled, memory.suffix.as_str(), magenta(), violet()),
    );
    lines.push(
        meter_line(
            t,
            "Disk Usage",
            disk.filled,
            disk.suffix.as_str(),
            Rgb { r: 74, g: 168, b: 255 },
            blue(),
        ),
    );
    let temp_line = match temperature {
        Some(r) => meter_line(
            t,
            "Temperature",
            r.filled,
            r.suffix.as_str(),
            orange(),
            Rgb { r: 180, g: 83, b: 9 },
        ),
        None => meter_line(t, "Temperature", 0, "N/A", orange(), Rgb { r: 180, g: 83, b: 9 }),
    };
    lines.push(temp_line);
    lines
}

// ---------------------------------------------------------------------------
// Laws of the layout.
// ---------------------------------------------------------------------------

proof fn lemma_side_line_len(t: Terminal, r: (Seq<char>, Seq<char>, Rgb), raw: Seq<char>)
    requires
        !t.color,
        raw.len() <= spec_logo_width(),
    ensures
        side_line(t, r, raw).len() == side_fixed(r.0.len()) + shortened(
            r.1,
            room(t.width as nat, side_fixed(r.0.len())),
        ).len(),
{
    lemma_gradient_plain(raw);
}

/// An information row of the stacked layout never reaches the last column:
/// without styling it is narrower than the terminal whenever its label and
/// the four characters around it fit.
pub proof fn lemma_stacked_row_fits(t: Terminal, r: (Seq<char>, Seq<char>, Rgb))
    requires
        !t.color,
        r.0.len() + 4 <= t.width,
    ensures
        stacked_row(t, r).len() < t.width,
{
    lemma_shortened_len(r.1, room(t.width as nat, (r.0.len() + 4) as nat));
}

/// A side-by-side line fits the terminal: without styling it is at most as
/// wide as the terminal whenever its label and the fixed columns fit.
pub proof fn lemma_side_line_fits(t: Terminal, rows: Seq<(Seq<char>, Seq<char>, Rgb)>, i: int)
    requires
        !t.color,
        0 <= i < rows.len(),
        rows[i].0.len() + 53 <= t.width,
    ensures
        side_by_side_spec(t, rows)[i].len() <= t.width,
{
    lemma_logo_width_value();
    let raw = logo_beside(rows.len(), i);
    let off = logo_offset(rows.len());
    if off <= i && i - off < 7 {
        lemma_logo_lines_fit(i - off);
    }
    lemma_side_line_len(t, rows[i], raw);
    lemma_shortened_len(rows[i].1, room(t.width as nat, side_fixed(rows[i].0.len())));
}

/// The report never wraps: without styling, every line of it (rules, logo
/// and rows, in either layout) is at most as wide as the terminal, at every
/// width from 20 columns on, provided every label fits with the columns
/// around it.
pub proof fn lemma_report_fits(t: Terminal, rows: Seq<(Seq<char>, Seq<char>, Rgb)>)
    requires
        !t.color,
        t.width >= 20,
        forall|i: int|
            0 <= i < rows.len() ==> #[trigger] rows[i].0.len() + 4 <= t.width && (t.width >= 100
                ==> rows[i].0.len() + 53 <= t.width),
    ensures
        forall|k: int|
            0 <= k < report_spec(t, rows).len() ==> #[trigger] report_spec(t, rows)[k].len()
                <= t.width,
{
    lemma_logo_width_value();
    let rep = report_spec(t, rows);
    assert forall|k: int| 0 <= k < rep.len() implies #[trigger] rep[k].len() <= t.width by {
        if k == 0 || k == rep.len() - 1 {
            assert(rep[k] == rule_line(t));
        } else if t.width >= 100 {
            assert(rep[k] == side_by_side_spec(t, rows)[k - 1]);
            lemma_side_line_fits(t, rows, k - 1);
        } else {
            let st = stacked_spec(t, rows);
            assert(rep[k] == st[k - 1]);
            if k - 1 < 7 {
                assert(st[k - 1] == stacked_logo_line(t, k - 1));
                lemma_gradient_plain(
                    cut(trim_end_space(logo_line(k - 1)), room(t.width as nat, 1)),
                );
            } else if k - 1 == 7 {
            } else {
                assert(st[k - 1] == stacked_row(t, rows[k - 9]));
                lemma_stacked_row_fits(t, rows[k - 9]);
            }
        }
    }
}

/// A text without the escape character that starts every styling sequence.
pub open spec fn free_of_escape(s: Seq<char>) -> bool {
    forall|i: int| 0 <= i < s.len() ==> s[i] != '\x1b'
}

proof fn lemma_concat_free(a: Seq<char>, b: Seq<char>)
    requires
        free_of_escape(a),
        free_of_escape(b),
    ensures
        free_of_escape(a + b),
{
    assert forall|i: int| 0 <= i < (a + b).len() implies (a + b)[i] != '\x1b' by {
        if i >= a.len() {
            assert((a + b)[i] == b[i - a.len()]);
        }
    }
}

proof fn lemma_shortened_free(v: Seq<char>, w: nat)
    requires
        free_of_escape(v),
    ensures
        free_of_escape(shortened(v, w)),
{
    if v.len() > w && w >= 2 {
        assert forall|i: int| 0 <= i < shortened(v, w).len() implies shortened(v, w)[i] != '\x1b' by {
            if i < w - 1 {
                assert(shortened(v, w)[i] == v[i]);
            }
        }
    }
}

proof fn lemma_repeat_free(c: char, n: nat)
    requires
        c != '\x1b',
    ensures
        free_of_escape(repeat(c, n)),
{
}

proof fn lemma_logo_line_free(i: int)
    requires
        0 <= i < 7,
    ensures
        free_of_escape(logo_line(i)),
        free_of_escape(trim_end_space(logo_line(i))),
{
    crate::ascii::lemma_logo_has_no_escape(i);
    lemma_trim_end_space_len(logo_line(i));
    let t = trim_end_space(logo_line(i));
    assert forall|j: int| 0 <= j < t.len() implies t[j] != '\x1b' by {
        assert(t[j] == logo_line(i)[j]);
    }
}

/// Plain output is free of styling: without color, no line of the report
/// holds an escape character, as long as the labels and values do not.
pub proof fn lemma_plain_report_has_no_escape(t: Terminal, rows: Seq<(Seq<char>, Seq<char>, Rgb)>)
    requires
        !t.color,
        forall|i: int|
            0 <= i < rows.len() ==> free_of_escape(#[trigger] rows[i].0) && free_of_escape(
                rows[i].1,
            ),
    ensures
        forall|k: int|
            0 <= k < report_spec(t, rows).len() ==> free_of_escape(
                #[trigger] report_spec(t, rows)[k],
            ),
{
    let rep = report_spec(t, rows);
    assert forall|k: int| 0 <= k < rep.len() implies free_of_escape(#[trigger] rep[k]) by {
        if k == 0 || k == rep.len() - 1 {
            assert(rep[k] == rule_line(t));
            lemma_repeat_free(rule_char(t.unicode), t.width as nat);
        } else if t.width >= 100 {
            let i = k - 1;
            assert(rep[k] == side_by_side_spec(t, rows)[i]);
            let r = rows[i];
            let raw = logo_beside(rows.len(), i);
            let off = logo_offset(rows.len());
            if off <= i && i - off < 7 {
                lemma_logo_line_free(i - off);
            }
            lemma_gradient_plain(raw);
            let v = shortened(r.1, room(t.width as nat, side_fixed(r.0.len())));
            lemma_shortened_free(r.1, room(t.width as nat, side_fixed(r.0.len())));
            let lab = r.0.push(':');
            assert forall|j: int| 0 <= j < lab.len() implies lab[j] != '\x1b' by {
                if j < r.0.len() {
                    assert(lab[j] == r.0[j]);
                }
            }
            let pad = repeat(' ', fill(raw.len(), spec_logo_width()));
            lemma_repeat_free(' ', fill(raw.len(), spec_logo_width()));
            let a = seq![' '] + raw;
            lemma_concat_free(seq![' '], raw);
            lemma_concat_free(a, pad);
            lemma_concat_free(a + pad, seq![' ', ' ']);
            lemma_concat_free(a + pad + seq![' ', ' '], divider(t.unicode));
            lemma_concat_free(a + pad + seq![' ', ' '] + divider(t.unicode), seq![' ', ' ']);
            lemma_concat_free(a + pad + seq![' ', ' '] + divider(t.unicode) + seq![' ', ' '], lab);
            lemma_concat_free(
                a + pad + seq![' ', ' '] + divider(t.unicode) + seq![' ', ' '] + lab,
                seq![' '],
            );
            lemma_concat_free(
                a + pad + seq![' ', ' '] + divider(t.unicode) + seq![' ', ' '] + lab + seq![' '],
                v,
            );
        } else {
            let st = stacked_spec(t, rows);
            assert(rep[k] == st[k - 1]);
            if k - 1 < 7 {
                assert(st[k - 1] == stacked_logo_line(t, k - 1));
                lemma_logo_line_free(k - 1);
                let c = cut(trim_end_space(logo_line(k - 1)), room(t.width as nat, 1));
                assert forall|j: int| 0 <= j < c.len() implies c[j] != '\x1b' by {
                    assert(c[j] == trim_end_space(logo_line(k - 1))[j]);
                }
                lemma_gradient_plain(c);
                lemma_concat_free(seq![' '], c);
            } else if k - 1 == 7 {
            } else {
                let r = rows[k - 9];
                assert(st[k - 1] == stacked_row(t, r));
                let v = shortened(r.1, room(t.width as nat, (r.0.len() + 4) as nat));
                lemma_shortened_free(r.1, room(t.width as nat, (r.0.len() + 4) as nat));
                let lab = r.0.push(':');
                assert forall|j: int| 0 <= j < lab.len() implies lab[j] != '\x1b' by {
                    if j < r.0.len() {
                        assert(lab[j] == r.0[j]);
                    }
                }
                lemma_concat_free(seq![' '], lab);
                lemma_concat_free(seq![' '] + lab, seq![' ']);
                lemma_concat_free(seq![' '] + lab + seq![' '], v);
            }
        }
    }
}

/// A value that fits is never cut in the stacked layout: when the label, the
/// four columns around it and the whole value fit the terminal, the row's
/// line is the margin, the painted label with its colon, a space and the
/// whole painted value; below 100 columns that is the report's line for it.
pub proof fn lemma_stacked_value_whole(t: Terminal, rows: Seq<(Seq<char>, Seq<char>, Rgb)>, i: int)
    requires
        0 <= i < rows.len(),
        rows[i].0.len() + 4 + rows[i].1.len() <= t.width,
    ensures
        stacked_spec(t, rows)[8 + i] == seq![' '] + painted(t.color, rows[i].0.push(':'), rows[i].2, true)
            + seq![' '] + painted(t.color, rows[i].1, Rgb { r: 229, g: 231, b: 235 }, false),
        t.width < 100 ==> report_spec(t, rows)[9 + i] == stacked_spec(t, rows)[8 + i],
{
    assert(stacked_spec(t, rows)[8 + i] == stacked_row(t, rows[i]));
    lemma_shortened_len(rows[i].1, room(t.width as nat, (rows[i].0.len() + 4) as nat));
}

/// A value that does not fit in the stacked layout is cut only as far as
/// needed: it keeps its first `width - label - 5` characters and ends in `…`,
/// so that the line fills the terminal but for its last column.
pub proof fn lemma_stacked_value_cut(t: Terminal, rows: Seq<(Seq<char>, Seq<char>, Rgb)>, i: int)
    requires
        0 <= i < rows.len(),
        rows[i].0.len() + 4 + rows[i].1.len() > t.width,
        rows[i].0.len() + 6 <= t.width,
    ensures
        stacked_spec(t, rows)[8 + i] == seq![' '] + painted(t.color, rows[i].0.push(':'), rows[i].2, true)
            + seq![' '] + painted(
            t.color,
            rows[i].1.take(t.width - rows[i].0.len() - 5).push('…'),
            Rgb { r: 229, g: 231, b: 235 },
            false,
        ),
{
    assert(stacked_spec(t, rows)[8 + i] == stacked_row(t, rows[i]));
}

/// A value that fits is never cut in the side-by-side layout: when the logo
/// column, the divider, the label and the whole value fit the terminal, the
/// row's line ends in the whole painted value and, without styling, is
/// exactly as long as those columns and the value.
pub proof fn lemma_side_value_whole(t: Terminal, rows: Seq<(Seq<char>, Seq<char>, Rgb)>, i: int)
    requires
        0 <= i < rows.len(),
        rows[i].0.len() + 53 + rows[i].1.len() <= t.width,
    ensures
        ({
            let line = side_by_side_spec(t, rows)[i];
            let v = painted(t.color, rows[i].1, Rgb { r: 229, g: 231, b: 235 }, false);
            &&& line.len() >= v.len()
            &&& line.skip(line.len() - v.len()) == v
            &&& !t.color ==> line.len() == rows[i].0.len() + 53 + rows[i].1.len()
        }),
        t.width >= 100 ==> report_spec(t, rows)[1 + i] == side_by_side_spec(t, rows)[i],
{
    lemma_logo_width_value();
    let r = rows[i];
    let raw = logo_beside(rows.len(), i);
    let off = logo_offset(rows.len());
    if off <= i && i - off < 7 {
        lemma_logo_lines_fit(i - off);
    }
    lemma_shortened_len(r.1, room(t.width as nat, side_fixed(r.0.len())));
    let line = side_by_side_spec(t, rows)[i];
    let v = painted(t.color, r.1, Rgb { r: 229, g: 231, b: 235 }, false);
    let head = seq![' '] + gradient(t.color, raw) + repeat(' ', fill(raw.len(), spec_logo_width()))
        + seq![' ', ' '] + painted(t.color, divider(t.unicode), Rgb { r: 156, g: 163, b: 175 }, false)
        + seq![' ', ' '] + painted(t.color, r.0.push(':'), r.2, true) + seq![' '];
    assert(line == head + v);
    assert(line.skip(line.len() - v.len()) =~= v);
    if !t.color {
        lemma_gradient_plain(raw);
    }
}

// ---------------------------------------------------------------------------
// Laws of the meters.
// ---------------------------------------------------------------------------

/// A meter's bar has exactly `bar_width` cells: without styling it is the
/// `filled` full cells followed by the empty ones.
pub proof fn lemma_bar_cells(t: Terminal, filled: nat, start: Rgb, end: Rgb)
    requires
        !t.color,
        filled <= bar_width(t.width as nat),
    ensures
        bar_spec(t, filled, start, end) == repeat(full_cell(t.unicode), filled) + repeat(
            empty_cell(t.unicode),
            (bar_width(t.width as nat) - filled) as nat,
        ),
        bar_spec(t, filled, start, end).len() == bar_width(t.width as nat),
{
    assert(repeat(full_cell(t.unicode), filled / 2) + repeat(
        full_cell(t.unicode),
        (filled - filled / 2) as nat,
    ) =~= repeat(full_cell(t.unicode), filled));
}

/// A meter line fits the terminal: without styling, when the label fits its
/// column, the suffix its five columns, and the terminal leaves the bar at
/// least its eight cells, the line is narrower than the terminal.
pub proof fn lemma_meter_fits(
    t: Terminal,
    label: Seq<char>,
    filled: nat,
    suffix: Seq<char>,
    start: Rgb,
    end: Rgb,
)
    requires
        !t.color,
        filled <= bar_width(t.width as nat),
        label.len() <= meter_label_width(t.width as nat),
        suffix.len() <= 5,
        t.width >= meter_label_width(t.width as nat) + 21,
    ensures
        meter_spec(t, label, filled, suffix, start, end).len() < t.width,
{
    lemma_bar_cells(t, filled, start, end);
}

/// The ASCII fallback: on a terminal without Unicode and without styling,
/// rules are made of `-`, the divider is `|`, and a meter's bar of `#` and
/// `-` only.
pub proof fn lemma_ascii_fallback(t: Terminal, filled: nat, start: Rgb, end: Rgb)
    requires
        !t.unicode,
        !t.color,
        filled <= bar_width(t.width as nat),
    ensures
        rule_line(t) == repeat('-', t.width as nat),
        divider(t.unicode) == seq!['|'],
        forall|i: int|
            0 <= i < bar_spec(t, filled, start, end).len() ==> #[trigger] bar_spec(
                t,
                filled,
                start,
                end,
            )[i] == '#' || bar_spec(t, filled, start, end)[i] == '-',
{
    lemma_bar_cells(t, filled, start, end);
    let full = repeat('#', filled);
    let b = bar_spec(t, filled, start, end);
    assert forall|i: int| 0 <= i < b.len() implies #[trigger] b[i] == '#' || b[i] == '-' by {
        if i < filled {
            assert(b[i] == full[i]);
        } else {
            assert(b[i] == repeat('-', (bar_width(t.width as nat) - filled) as nat)[i - filled]);
        }
    }
}

// ---------------------------------------------------------------------------
// What a terminal shows of a styled line.
// ---------------------------------------------------------------------------

/// What a terminal shows of `s`: `s` without its escape sequences, each of
/// which runs from an escape character through the next `m`.
pub open spec fn visible(s: Seq<char>) -> Seq<char>
    decreases s.len(),
{
    if s.len() == 0 {
        Seq::empty()
    } else if s[0] == '\x1b' {
        let e = first_index(s, 'm');
        if e < s.len() {
            visible(s.skip((e + 1) as int))
        } else {
            Seq::empty()
        }
    } else {
        seq![s[0]] + visible(s.drop_first())
    }
}

/// Every escape sequence in `s` is finished within `s`.
pub open spec fn complete(s: Seq<char>) -> bool
    decreases s.len(),
{
    if s.len() == 0 {
        true
    } else if s[0] == '\x1b' {
        let e = first_index(s, 'm');
        e < s.len() && complete(s.skip((e + 1) as int))
    } else {
        complete(s.drop_first())
    }
}

/// `s` has no `m` in it.
pub open spec fn no_m(s: Seq<char>) -> bool {
    forall|i: int| 0 <= i < s.len() ==> s[i] != 'm'
}

/// `q` is one escape sequence: an escape character, then no `m` up to the
/// `m` that ends it.
pub open spec fn is_escape(q: Seq<char>) -> bool {
    q.len() >= 1 && q[0] == '\x1b' && q.last() == 'm' && no_m(q.drop_last())
}

proof fn lemma_first_index_prefix(a: Seq<char>, b: Seq<char>, c: char)
    requires
        first_index(a, c) < a.len(),
    ensures
        first_index(a + b, c) == first_index(a, c),
    decreases a.len(),
{
    if a[0] != c {
        assert((a + b).drop_first() =~= a.drop_first() + b);
        lemma_first_index_prefix(a.drop_first(), b, c);
    }
}

/// Visible text splits at the end of a complete text.
proof fn lemma_visible_concat(a: Seq<char>, b: Seq<char>)
    requires
        complete(a),
    ensures
        visible(a + b) == visible(a) + visible(b),
        complete(b) ==> complete(a + b),
    decreases a.len(),
{
    if a.len() == 0 {
        assert(a + b =~= b);
        assert(visible(a) + visible(b) =~= visible(b));
    } else if a[0] == '\x1b' {
        let e = first_index(a, 'm');
        lemma_first_index_prefix(a, b, 'm');
        assert((a + b).skip((e + 1) as int) =~= a.skip((e + 1) as int) + b);
        lemma_visible_concat(a.skip((e + 1) as int), b);
    } else {
        assert((a + b).drop_first() =~= a.drop_first() + b);
        lemma_visible_concat(a.drop_first(), b);
        assert(seq![a[0]] + (visible(a.drop_first()) + visible(b)) =~= (seq![a[0]] + visible(
            a.drop_first(),
        )) + visible(b));
    }
}

proof fn lemma_cat(a: Seq<char>, b: Seq<char>)
    requires
        complete(a),
        complete(b),
    ensures
        complete(a + b),
        visible(a + b) == visible(a) + visible(b),
{
    lemma_visible_concat(a, b);
}

/// A text without escape characters is shown as it is.
proof fn lemma_visible_free(x: Seq<char>)
    requires
        free_of_escape(x),
    ensures
        complete(x),
        visible(x) == x,
    decreases x.len(),
{
    if x.len() > 0 {
        lemma_visible_free(x.drop_first());
        assert(seq![x[0]] + x.drop_first() =~= x);
    }
}

/// An escape sequence shows nothing.
proof fn lemma_visible_escape(q: Seq<char>)
    requires
        is_escape(q),
    ensures
        complete(q),
        visible(q) == Seq::<char>::empty(),
{
    crate::text::lemma_first_index_bound(q, 'm');
    let e = first_index(q, 'm');
    assert(q[q.len() - 1] == 'm');
    if e < q.len() - 1 {
        assert(q.drop_last()[e as int] == q[e as int]);
    }
    assert(e == q.len() - 1);
    assert(q.skip((e + 1) as int) =~= Seq::<char>::empty());
    assert(complete(Seq::<char>::empty()));
    assert(visible(Seq::<char>::empty()) == Seq::<char>::empty());
    assert(complete(q.skip((e + 1) as int)));
}

proof fn lemma_no_m_concat(a: Seq<char>, b: Seq<char>)
    requires
        no_m(a),
        no_m(b),
    ensures
        no_m(a + b),
{
    assert forall|i: int| 0 <= i < (a + b).len() implies (a + b)[i] != 'm' by {
        if i >= a.len() {
            assert((a + b)[i] == b[i - a.len()]);
        }
    }
}

proof fn lemma_decimal_no_m(n: nat)
    ensures
        no_m(decimal(n)),
        decimal(n).len() >= 1,
    decreases n,
{
    let d = n % 10;
    assert(digit(d) != 'm') by {
        assert(d < 10);
        if d == 0 {
        } else if d == 1 {
        } else if d == 2 {
        } else if d == 3 {
        } else if d == 4 {
        } else if d == 5 {
        } else if d == 6 {
        } else if d == 7 {
        } else if d == 8 {
        } else {
            assert(d == 9);
        }
    }
    if n >= 10 {
        lemma_decimal_no_m(n / 10);
        assert forall|i: int| 0 <= i < decimal(n).len() implies decimal(n)[i] != 'm' by {
            if i < decimal(n / 10).len() {
                assert(decimal(n)[i] == decimal(n / 10)[i]);
            }
        }
    }
}

proof fn lemma_fg_escape(c: Rgb)
    ensures
        is_escape(crate::terminal::fg(c)),
{
    let head = seq!['\x1b', '[', '3', '8', ';', '2', ';'];
    let semi = seq![';'];
    lemma_decimal_no_m(c.r as nat);
    lemma_decimal_no_m(c.g as nat);
    lemma_decimal_no_m(c.b as nat);
    let body = head + decimal(c.r as nat) + semi + decimal(c.g as nat) + semi + decimal(
        c.b as nat,
    );
    lemma_no_m_concat(head, decimal(c.r as nat));
    lemma_no_m_concat(head + decimal(c.r as nat), semi);
    lemma_no_m_concat(head + decimal(c.r as nat) + semi, decimal(c.g as nat));
    lemma_no_m_concat(head + decimal(c.r as nat) + semi + decimal(c.g as nat), semi);
    lemma_no_m_concat(
        head + decimal(c.r as nat) + semi + decimal(c.g as nat) + semi,
        decimal(c.b as nat),
    );
    let q = crate::terminal::fg(c);
    assert(q =~= body + seq!['m']);
    assert(q.drop_last() =~= body);
    assert(q[0] == head[0]);
}

/// A painted text shows exactly the text, whether or not it is styled.
pub proof fn lemma_visible_painted(color: bool, x: Seq<char>, c: Rgb, bold: bool)
    requires
        free_of_escape(x),
    ensures
        complete(painted(color, x, c, bold)),
        visible(painted(color, x, c, bold)) == x,
{
    lemma_visible_free(x);
    if color {
        let b = if bold {
            crate::terminal::bold_on()
        } else {
            Seq::empty()
        };
        if bold {
            assert(no_m(crate::terminal::bold_on().drop_last()));
            lemma_visible_escape(crate::terminal::bold_on());
        }
        lemma_fg_escape(c);
        lemma_visible_escape(crate::terminal::fg(c));
        assert(no_m(crate::terminal::reset().drop_last()));
        lemma_visible_escape(crate::terminal::reset());
        lemma_cat(b, crate::terminal::fg(c));
        lemma_cat(b + crate::terminal::fg(c), x);
        lemma_cat(b + crate::terminal::fg(c) + x, crate::terminal::reset());
        assert(visible(b) + visible(crate::terminal::fg(c)) =~= Seq::<char>::empty());
        assert(Seq::<char>::empty() + x =~= x);
        assert(x + Seq::<char>::empty() =~= x);
    }
}

/// A gradient line shows exactly the line, whether or not it is styled.
pub proof fn lemma_visible_gradient(color: bool, line: Seq<char>)
    requires
        free_of_escape(line),
    ensures
        complete(gradient(color, line)),
        visible(gradient(color, line)) == line,
    decreases line.len(),
{
    if line.len() > 0 {
        let rest = line.drop_last();
        assert(free_of_escape(rest)) by {
            assert forall|i: int| 0 <= i < rest.len() implies rest[i] != '\x1b' by {
                assert(rest[i] == line[i]);
            }
        }
        lemma_visible_gradient(color, rest);
        let one = seq![line.last()];
        lemma_visible_painted(color, one, gradient_color(gradient_slot(line.len() - 1)), true);
        lemma_cat(
            gradient(color, rest),
            painted(color, one, gradient_color(gradient_slot(line.len() - 1)), true),
        );
        assert(rest + one =~= line);
    } else {
        assert(complete(Seq::<char>::empty()));
    }
}

/// The same terminal without styling.
pub open spec fn unstyled(t: Terminal) -> Terminal {
    Terminal { color: false, unicode: t.unicode, width: t.width }
}

proof fn lemma_free_cat(a: Seq<char>, b: Seq<char>)
    requires
        free_of_escape(a),
        free_of_escape(b),
    ensures
        free_of_escape(a + b),
        complete(a + b),
        visible(a + b) == a + b,
{
    lemma_concat_free(a, b);
    lemma_visible_free(a + b);
}

proof fn lemma_label_free(l: Seq<char>)
    requires
        free_of_escape(l),
    ensures
        free_of_escape(l.push(':')),
{
    assert forall|j: int| 0 <= j < l.push(':').len() implies l.push(':')[j] != '\x1b' by {
        if j < l.len() {
            assert(l.push(':')[j] == l[j]);
        }
    }
}

/// A styled report line shows what the same line shows without styling.
proof fn lemma_visible_line(t: Terminal, rows: Seq<(Seq<char>, Seq<char>, Rgb)>, k: int)
    requires
        0 <= k < report_spec(t, rows).len(),
        forall|i: int|
            0 <= i < rows.len() ==> free_of_escape(#[trigger] rows[i].0) && free_of_escape(
                rows[i].1,
            ),
    ensures
        visible(report_spec(t, rows)[k]) == report_spec(unstyled(t), rows)[k],
{
    let p = unstyled(t);
    let rep = report_spec(t, rows);
    let plain = report_spec(p, rows);
    if k == 0 || k == rep.len() - 1 {
        assert(rep[k] == rule_line(t));
        assert(plain[k] == rule_line(p));
        lemma_repeat_free(rule_char(t.unicode), t.width as nat);
        lemma_visible_painted(
            t.color,
            repeat(rule_char(t.unicode), t.width as nat),
            Rgb { r: 156, g: 163, b: 175 },
            false,
        );
    } else if t.width >= 100 {
        let i = k - 1;
        assert(rep[k] == side_by_side_spec(t, rows)[i]);
        assert(plain[k] == side_by_side_spec(p, rows)[i]);
        let r = rows[i];
        let raw = logo_beside(rows.len(), i);
        let off = logo_offset(rows.len());
        if off <= i && i - off < 7 {
            lemma_logo_line_free(i - off);
        }
        lemma_gradient_plain(raw);
        lemma_visible_gradient(t.color, raw);
        let v = shortened(r.1, room(t.width as nat, side_fixed(r.0.len())));
        lemma_shortened_free(r.1, room(t.width as nat, side_fixed(r.0.len())));
        lemma_label_free(r.0);
        let pad = repeat(' ', fill(raw.len(), spec_logo_width()));
        lemma_repeat_free(' ', fill(raw.len(), spec_logo_width()));
        let sp = seq![' '];
        let sp2 = seq![' ', ' '];
        lemma_visible_free(sp);
        lemma_visible_free(sp2);
        lemma_visible_free(pad);
        let g = gradient(t.color, raw);
        let d = painted(t.color, divider(t.unicode), Rgb { r: 156, g: 163, b: 175 }, false);
        let l = painted(t.color, r.0.push(':'), r.2, true);
        let w = painted(t.color, v, Rgb { r: 229, g: 231, b: 235 }, false);
        lemma_visible_painted(t.color, divider(t.unicode), Rgb { r: 156, g: 163, b: 175 }, false);
        lemma_visible_painted(t.color, r.0.push(':'), r.2, true);
        lemma_visible_painted(t.color, v, Rgb { r: 229, g: 231, b: 235 }, false);
        lemma_cat(sp, g);
        lemma_cat(sp + g, pad);
        lemma_cat(sp + g + pad, sp2);
        lemma_cat(sp + g + pad + sp2, d);
        lemma_cat(sp + g + pad + sp2 + d, sp2);
        lemma_cat(sp + g + pad + sp2 + d + sp2, l);
        lemma_cat(sp + g + pad + sp2 + d + sp2 + l, sp);
        lemma_cat(sp + g + pad + sp2 + d + sp2 + l + sp, w);
    } else {
        let st = stacked_spec(t, rows);
        let stp = stacked_spec(p, rows);
        assert(rep[k] == st[k - 1]);
        assert(plain[k] == stp[k - 1]);
        let sp = seq![' '];
        lemma_visible_free(sp);
        if k - 1 < 7 {
            assert(st[k - 1] == stacked_logo_line(t, k - 1));
            assert(stp[k - 1] == stacked_logo_line(p, k - 1));
            lemma_logo_line_free(k - 1);
            let c = cut(trim_end_space(logo_line(k - 1)), room(t.width as nat, 1));
            assert forall|j: int| 0 <= j < c.len() implies c[j] != '\x1b' by {
                assert(c[j] == trim_end_space(logo_line(k - 1))[j]);
            }
            lemma_gradient_plain(c);
            lemma_visible_gradient(t.color, c);
            lemma_cat(sp, gradient(t.color, c));
        } else if k - 1 == 7 {
            lemma_visible_free(Seq::<char>::empty());
        } else {
            let r = rows[k - 9];
            assert(st[k - 1] == stacked_row(t, r));
            assert(stp[k - 1] == stacked_row(p, r));
            let v = shortened(r.1, room(t.width as nat, (r.0.len() + 4) as nat));
            lemma_shortened_free(r.1, room(t.width as nat, (r.0.len() + 4) as nat));
            lemma_label_free(r.0);
            let l = painted(t.color, r.0.push(':'), r.2, true);
            let w = painted(t.color, v, Rgb { r: 229, g: 231, b: 235 }, false);
            lemma_visible_painted(t.color, r.0.push(':'), r.2, true);
            lemma_visible_painted(t.color, v, Rgb { r: 229, g: 231, b: 235 }, false);
            lemma_cat(sp, l);
            lemma_cat(sp + l, sp);
            lemma_cat(sp + l + sp, w);
        }
    }
}

/// The report never wraps, styled or not: what the terminal shows of every
/// line of it is at most as wide as the terminal, at every width from 20
/// columns on, provided every label fits with the columns around it and the
/// labels and values hold no escape characters of their own.
pub proof fn lemma_styled_report_fits(t: Terminal, rows: Seq<(Seq<char>, Seq<char>, Rgb)>)
    requires
        t.width >= 20,
        forall|i: int|
            0 <= i < rows.len() ==> #[trigger] rows[i].0.len() + 4 <= t.width && (t.width >= 100
                ==> rows[i].0.len() + 53 <= t.width),
        forall|i: int|
            0 <= i < rows.len() ==> free_of_escape(#[trigger] rows[i].0) && free_of_escape(
                rows[i].1,
            ),
    ensures
        forall|k: int|
            0 <= k < report_spec(t, rows).len() ==> #[trigger] visible(report_spec(t, rows)[k]).len()
                <= t.width,
{
    let p = unstyled(t);
    lemma_report_fits(p, rows);
    assert forall|k: int| 0 <= k < report_spec(t, rows).len() implies #[trigger] visible(
        report_spec(t, rows)[k],
    ).len() <= t.width by {
        lemma_visible_line(t, rows, k);
        assert(report_spec(p, rows).len() == report_spec(t, rows).len());
    }
}

} // verus!
