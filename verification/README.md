# tethera_server

The server side of a remote terminal and agent-transcript viewer, as a
verified library.

- `src/terminal/`: the emulated screen (grid, damage, scrolling, wide glyphs,
  alternate screen, cursor save and restore), a pane's pump steps and its
  close, the frames a client is sent, the framing between a shim and the
  server, the shim's greeting and geometry handoff, key encoding, and reading
  a question an agent draws on screen.
- `src/transcript/`: reading an agent's JSONL record of a session: records,
  content blocks, which records count toward a turn, one turn from a group
  of records and the parts each record shows as (words, sent files, commands,
  tool calls by the rendering the agent's tables name: questions and answers,
  file cards, diffs, plans, rows; tables in prose), the index of where each
  turn and tool result sits in the file, pages of turns (newest last, within
  a byte budget, a lone turn too large shrunk behind a notice) and their
  cursors, status and statistics, session summaries and their newest-first
  listing.
- `app/`: what cannot be verified: the `vte` parser driving the screen, ptys,
  threads, sockets, files, and `serde` reading records.
- `tests/`: tests of the library from outside.

Every function in `src/` carries a contract that Verus proves; the laws that
relate several calls (round trips, damage tracking, save and restore) are
proof functions beside the code they speak of.
