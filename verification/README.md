# gabe

G.A.B.E tracks a player's games and achievements: it draws random
achievements as goals, keeps the goals and exclusions the player chose,
decides which games are complete or perfected, and shows game lists, a goals
view, game views and a trophy case.

- `src/` is the library, verified with Verus: the rows the local database
  holds and the selections made on them (`steam_db`, `mtga_db`), the rules
  for goals, completion and progress (`goals`, `achievements`,
  `game_targets`, `game_cover`), the range of times it accepts (`time`), what the Steam Web API answers and the
  requests made to it (`steam_api`), the Magic the Gathering Arena player
  log (`mtga_log`, `mtga_utils`, reading its JSON through `json`), what the views show (`ui`), and the state
  of the window with its reaction to each message (`app_state`).
- `app/` is the program around it: the SQLite database, the HTTP requests,
  the settings file, and the iced window, which hands each message to
  `UiState::update` and carries out the commands it returns.
- `tests/` runs the library on concrete values.
