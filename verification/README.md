# herdr

The sidebar, the detail panel and the notification sounds of a terminal
multiplexer for coding agents, verified with Verus.

`src/` is the library. Drawing is a list of steps (`draw::DrawOp`), so what a
panel looks like is the result of a function with a contract.

- `app/`: the state of the panels, the timeline of the focused session and how
  it is kept up to date, the order and selection of the agent panel
- `ui/detail_panel`, `ui/viewer`: the task list and the prompt viewer
- `ui/sidebar/`: the list of spaces, their tabs, the agent panel, the minimized
  sidebar
- `ui/wrap`, `ui/figures`, `ui/packing`: wrapping, numbers and times, scrolling
  lists of rows
- `sound/synth`: notification sounds as WAV files
- `seconds`: times as the doubles of the summarizer's files count them, in whole
  numbers
- `text`, `seqs`, `views`, `geometry`, `style`, `metadata`, `workspace`: what the
  others are made of

How many cells a text takes is the one thing that is taken on trust; it comes
from `ratatui`, through `text::display_width`.

What relates several functions is stated by the proof functions whose names
begin with `law_`.

`app/` is the ordinary Rust around the library: the terminal's cells, the clock,
the summarizer's files, and the wave forms, which are floating-point sums.
