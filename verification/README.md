# xq

A Chinese chess (xiangqi) library whose behaviour is stated in contracts and
proved with Verus: the rules, FEN and move notation, an alpha-beta engine, a
move coach, the state of a game as a front end sees it, and the routing of an
HTTP bridge.

## Layout

- `src/` — the verified library.
  - `square`, `piece`, `color`, `mv`, `board`, `movegen`, `position`,
    `repetition`, `rules`, `zobrist`: the board, pseudo-legal and legal
    moves, making and unmaking moves, check, mate, stalemate and the
    repetition rules.
  - `fen`, `notation`, `text`: FEN text and Chinese move notation, both read
    and written, with the text helpers they share.
  - `ai`: evaluation, move ordering, the transposition table, the search,
    time management and difficulty levels.
  - `coach`: grading a move against the engine's scores, recognising
    tactics, matching openings, rendering commentary from templates and
    checking a rewritten commentary against the facts it may use.
  - `session`: a game with its record, clock and the data sent to the
    front end.
  - `bridge`: HTTP request and response values and the routing of paths.
- `app/` — the HTTP server around the library: sockets, JSON, the knowledge
  files, the randomised move choice of the weaker levels and the
  floating-point tactic confidences. The seek, resign, timeout-settling and
  per-ply analysis endpoints answer 404: the desktop bridge they belong to
  calls application-state operations for them that the project never
  defines, so there is no behaviour to serve.
- `tests/` — tests of the library on concrete positions and texts.

## What is proved

Besides the contract of each function, `src/` proves laws that tie
functions together, among them:

- FEN text of a sound position reads back as that position
  (`fen::roundtrip`);
- Chinese notation of a legal move reads back as the move wherever it is
  unambiguous, and notation parts read back from their text
  (`notation::roundtrip`);
- unmaking a move restores the position, and undoing a move restores the
  game (`position`, `session::game`);
- legal moves are exactly the pseudo-legal moves that keep the king safe,
  none is listed twice and none lands on a king (`position`, `board`);
- the transposition table gives back what a store wrote, keeps a deeper
  entry of the same position against a shallower one, and keeps mate
  distances through it (`ai::tt`);
- a search ends interrupted only when it has counted as many nodes as its
  budget (`u64::MAX` without one) or when its signal may ask to stop; a
  search of depth two or more without the table scores a mate in one as
  one (`ai::search`);
- without the table and below the depth where late moves are reduced, a
  search node reports the full-width value of its position within its
  window, its capture search the value of its first 64 captures with
  standing pat (read two ways where a position without a legal move stands
  pat), and the root the best of its moves' values with each root score at
  or above its move's value; at the first reduced depth a score
  that raises the window is backed by a move searched to full depth
  (`ai::search`);
- the move picker hands out the legal moves best first (`ai::ordering`);
- legal moves keep both kings in their palaces, a move taken back
  restores the whole position, move stack and history included, and any
  line of moves taken back last first restores where it started
  (`position`);
- the counts of a divided perft sum to the perft count, come largest
  first and carry distinct move labels (`rules`);
- a board seen from the other side evaluates to the negation whenever the
  chariots given open-file bonuses (the first four of a side in point
  order) on the one board are the reflections of those on the other, in
  particular when neither side has more than four chariots
  (`ai::eval::mirror`);
- a rewritten commentary that is accepted uses only allowed facts, and a
  tactic constraint with an unknown predicate, or without the parameter
  its predicate needs, never matches (`coach::llm`, `coach::tactic`);
- API paths and static file paths stay inside their roots (`bridge::routes`).
