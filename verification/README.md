# Kettle

Kettle is a frontend for Homebrew: it lists installed, outdated and available
formulae and casks, searches them, installs and upgrades them through `brew`,
signs in to GitHub with the OAuth device flow, and can serve as a `sudo`
askpass helper backed by 1Password.

The library under `src/` holds Kettle's logic, verified with Verus: every
public function states what it returns or changes, and the proofs hold for
every input its `requires` admits.

- `domain/` — package identity (name and kind), versions and their order,
  the actions `brew` runs.
- `application/` — the package store and its overlays, the selection model,
  the app state with its bounded log, the controller that starts and
  finishes refreshes, mutations and sign-ins, and the steps the window takes
  as work reports back.
- `search/`, `rank.rs`, `rows.rs` — folded search text, subsequence scoring
  and ranked rows.
- `brew.rs`, `infrastructure/homebrew/` — rows built from Homebrew's
  directories, caches and reports, and the `brew` invocations of a mutation,
  formulae and casks always apart.
- `infrastructure/github/`, `github.rs` — the device flow's replies, tokens
  held in wiped memory, and Keychain outcomes.
- `askpass.rs`, `infrastructure/privilege.rs` — what the askpass helper and
  its configuration must look like before they are trusted.
- `ui/` — messages, themes, the search field's editing model and its UTF-8,
  UTF-16 and grapheme offsets, and what the main window writes.
- `browser.rs` — the model of the lightweight package browser.
- `icon.rs` — the raster, blur and PNG encoder of the app icon.

`app/` is the command-line program around the library: it reads the file
system, runs `brew`, talks to GitHub and the Keychain, draws the icon's
geometry, and hands the library plain values.

`tests/` exercises the library from outside.
