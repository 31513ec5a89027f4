# prismfetch

A `neofetch`-style system report for PrismOS: a gradient block logo beside
the system's facts, then usage meters.

- `src/` is the library, verified with Verus:
  - `text` — the character-sequence model (decimal notation, padding,
    shortening with `…`, trimming, line splitting, substring search);
  - `ascii` — the logo and its width;
  - `terminal` — colors, `Terminal::paint`, and the decision of what the
    terminal can show (width, styling, Unicode) from its environment;
  - `render` — the information rows, the side-by-side and stacked layouts,
    the report between its rules, the meters, and the laws of the layout;
  - `collector` — how the facts are read out of `os-release`, `lspci`,
    package listings, `gsettings` and the environment.
- `app/` reads the machine (files, commands, environment, `sysinfo`),
  does the floating-point arithmetic of the meters, and prints.
- `tests/` runs the library on concrete inputs.
