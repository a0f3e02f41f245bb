# world

The game state of a tile-based multiplayer world, verified with Verus: players and monsters,
the map and the items on it, fights, chat, container windows, gamemaster commands, item scripts,
and what every session is told about it all.

- `src/` is the library. `game::Game` is the state; its view `World` is the mathematical model.
  Each method says by a function on `World` what it changes. Where dice, a script or a search for
  a way decide, a contract holds for every outcome, and another method takes the outcome as an
  argument. `game::laws` states what holds across commands.
- `tests/` runs the library on concrete worlds.
- `app/` owns a running game: it reads the script and monster files, keeps the clock, and moves packets and
  save records between the library and the channels of the sessions. The formula for melee
  damage, which is in floating point, stands there too.

The search for a way over the map is handed to the library as a function of a map and a
`PathQuery`.
