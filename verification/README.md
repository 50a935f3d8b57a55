# trivianetdmr

A net-control companion for amateur-radio trivia nets, with its logic
verified by Verus.

- `src/` — the verified library:
  - `text.rs`: Unicode whitespace, trimming, searching, line splitting and
    UTF-8 byte offsets over character sequences.
  - `trivia.rs`: Markdown question decks (`clean_markdown`,
    `TriviaTopic::parse_markdown`) with their laws.
  - `state.rs`: the roster, the rotating answer queue, turns, rounds and
    scores (`App`, `Participant`), with the roster invariant and the
    rotation and scoring laws.
  - `qrz.rs`: offline callbook profiles, QRZ.com XML replies (through
    `roxmltree`) and the steps of a lookup between network requests.
  - `events.rs`: what each key press and finished lookup does.
  - `standings.rs`: the final scoreboard ranking.
  - `ui.rs`: the dashboard's rows, turn counter and popup placement
    (through `ratatui`'s layout solver).
- `app/` — the terminal program: terminal setup and drawing, the event
  loop, HTTP requests, environment variables and files.
- `tests/` — executable tests of the library.
