# hume-editor

The core of the HUME modal text editor, written in Verus: every function of the library
states what it does in `requires` and `ensures`, and Verus proves it.

- `src/` is the verified library: text and change sets, the undo tree, buffers and panes,
  registers and the kill ring, key tries and key dispatch, the command registry, insert
  mode, pastes, search, completion, scrolling, language detection and the bookkeeping of
  parses and of scripts.
- `tests/` runs it, with the crates it calls.
- `app/` is ordinary Rust around it: the loop that reads keys, terminal events, the
  clipboard, files, the parsing thread and the start of scripting.

What is not proved is stated where it is trusted: wrappers around `ropey`, `regex-cursor`,
`globset`, `slotmap`, `unicode-segmentation`, `unicode-width` and a few functions of the
standard library, each with a contract of its own.
