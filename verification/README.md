# vibediff_core

A semantic intent auditor for git changes: it reads a commit's diff and
message, works out which code entities the change touches, and asks a
language model (or a deterministic fallback) whether the change matches what
the commit message says.

The library under `src/` is written in Verus and verified. Its contracts are
stated over mathematical views (`Seq`, `Map`-like spec functions, `int`):

- `git::diff_parser` parses unified diffs into hunks (added and removed lines
  with their line numbers in the new file, the changed range, the language of
  the file); `git::intent` reads the conventional-commit type, scope and
  ticket reference of a message; `git::paths` gives `Path::extension`
  semantics on character sequences.
- `ast` turns the added lines of a file's hunks into entity changes, given
  the syntax-node nesting that `tree-sitter` reports at each line, and keeps
  the indices of imported names and used CSS classes that impact analysis
  reads.
- `scorer` holds the deterministic decisions of an audit: which hunks are
  analysed, the prompt, the detected-impacts section, when to ask the model
  again or fall back, the fallback verdict's
  flags and reasoning, and how a model's answer is unwrapped.
- `text` holds the character-level helpers (trimming, `str::lines`, runs of
  characters, decimal numbers) with their specifications.

Laws that relate several functions are public proof functions named `law_*`.

`app/` is the command-line program around the library: git access, file
walking, the on-disk cache, the model clients, floating-point scoring and
output formatting.
