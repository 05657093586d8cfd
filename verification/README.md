# twt_werewolf_master_ng

A werewolf party game for a judger (server) and networked players, with the
game's logic verified by Verus.

- `src/` is the verified library:
  - `text`: decimal numbers, formatted and parsed.
  - `judger`: the table of players, the set-up (roles in play, counts,
    seats, handing roles out), the phases of the game, when it is over, and
    the handling of fresh deaths.
  - `judger::roles`: roles, life status, role groups and the steps of a
    death; `hunter` and `werewolf` hold the groups' own decisions.
  - `judger::roles::responder`: the lines the judger sends and the replies
    it accepts; `widget` holds the vote rules and the order of a day's talk;
    `debug_bot` and `doubao_ai` hold the computer players' logic.
  - `player`: the player's state and how it reacts to each message;
    `player::comm` holds the messages as the player reads and writes them.
- `app/` is the program: prompts, sockets, the model's web API, the log
  file, and the loops that run the game on the library's decisions.
- `tests/` runs the library on concrete games.
