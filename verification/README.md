# lera

The world logic of Lera, a small text adventure that players reach over
telnet, written in Verus and proved against its contracts.

- `src/` is the library. `ecs` holds the entity store (a `specs` world)
  behind wrappers whose contracts name its contents; `components`,
  `constants` and `room` describe the map and what an entity is made of;
  `communication`, `movement` and `aggression` are the systems that run on
  every tick; `game_state`, `player_input` and `npc_manager` are the game's
  operations; `commands` turns typed lines into requests; `world` answers
  the lines of the command loop that sets a player's name; `text` and
  `message` build what players read; `dice` draws numbers by chance and
  keeps with each the range it was drawn from, so the contracts of the
  functions that roll say which ranges they roll from.
- `app/` is the server around it: sockets, threads, the game loop.
- `tests/` runs the library with the real outside crates.
