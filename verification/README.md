# ember_terminal

The state of a terminal emulator: what a stream of bytes does to a screen, its
scrollback, its cursor and its modes, what a shell's marks say about the
commands that ran, and how all of it is shown, selected and searched. Its
functions are verified with Verus against contracts on mathematical models,
except for the wrappers named under "What is trusted".

## Layout

- `src/` is the library.
  - Cells and rows: `cell`, `grid`, `history`, `document`, `state`, `setup`.
  - Input: `parser`, `csi`, `control`, `fields`, `osc133`, `batches`.
  - Drawing: `writing`, `editing`, `cursor`, `scrolling`, `screens`, `resize`,
    `pen`, `modes`, `keyboard`.
  - Talking to the host: `host`, `clipboard`, `colors`, `reports`, `queries`,
    `text`, `bounded_text`.
  - Commands: `commands`, `lifecycle`, `marks`, `blocks`, `output`,
    `provenance`, `navigation`, `extraction`.
  - Views: `view`, `viewport`, `caches`, `geometry`, `spans`, `placing`,
    `projection`, `projected`, and the laws in `view_laws`, `cache_laws`,
    `origin_laws`, `text_laws` and `stamp_laws`.
  - Folding outputs: `plan`, `layout`, `collapses`, `folding`, `planning`,
    `materialize`, `lookup`, `locating`, and the laws in `line_order`,
    `fold_laws`, `showing`, `summaries`, `advancing`, `advance_laws`,
    `refold_laws` and `reveal_laws`.
  - Selecting and clicking: `words`, `selection`, `folded_selection`, `click`.
- `tests/` runs the library on concrete input.
- `app/` looks up the name of the machine and makes a terminal that knows it.

## How contracts are written

A function that changes the terminal is described by a relation between the
state before and after, named in the past tense (`line_fed`, `char_printed`,
`region_scrolled_up`). Each relation ends with what stays as it was, written as
a struct update of the state before. `TerminalState::core_wf` is the invariant
that all of them keep.

What holds across several functions stands in public proof functions next to
the relations that they speak of: a cut sequence is completed by the next batch
(`input_can_be_cut`), folding hides outputs and nothing else
(`plans_hide_outputs_alone`), a document advanced along with the output is the
one that would be made anew (`requested_documents_are_current`), every view is
that of the rows as they are (`views_are_current`), and so on.

## What is trusted

The contracts of the calls into `base64`, `smallvec`, `unicode-normalization`,
`uuid` and a few functions of the standard library are believed, not proved.
Each of them is a wrapper or a declaration that says in its comment what it
claims. `read_clock` claims nothing of the time that it reads: it has no
contract, and whatever depends on the time is verified for every time.
