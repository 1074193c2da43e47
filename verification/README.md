# xiangqi_tui

A terminal client for Chinese chess (Xiangqi): a board drawn with box
characters, moves typed as `h2e2` or clicked, slash commands, a UCI/UCCI
engine for analysis and for the computer's moves, and opening books (local
`.xqb` SQLite files and the chessdb.cn service). Local `.obk` books are
recognised and can be given a key index, but their Zobrist position keys
are not computed here, so a lookup in one finds nothing.

## Layout

- `src/` — the library, verified with Verus. Everything the client decides
  lives here, with its contract:
  - `xiangqi`, `rules` — the board, FEN reading and writing, move legality;
  - `game`, `history`, `command`, `input`, `screens`, `settings` — game
    state, the move record, commands, the input line, buttons and settings;
  - `engine_setup`, `handshake`, `engine_info` — engine commands, the
    protocol handshake as a state machine, and the reading of engine output;
  - `book`, `xqb`, `obk`, `chessdb` — opening-book keys, rows and answers;
    `key_symmetry` proves that a board, its mirror image and the board
    turned round with the colours swapped share one book key;
  - `grid`, `board_text`, `panel`, `text`, `config` — board geometry and
    hit tests, the text of the drawn board, panel formatting, string helpers
    and the settings file.
- `app/` — the program around it: the terminal, the event loop, the engine
  process, the SQLite files, HTTP, the clipboard and the log.
- `tests/` — tests of the library.
