# getting-farted-on: verified game logic

The logic of a multiplayer physics platformer (roll, fart, climb to the golden
toilet), written in Verus with its contracts proved.

`src/` is the verified library:

- `id` — player identifiers: generated ones count up from 0, the local player
  is -1, replays are -2 and below.
- `net` — the relay server's bookkeeping: clients, the message queue, and who
  gets which relayed message (a client never gets its own player's update or
  despawn; everyone else does); a client's reaction to the server's messages;
  showing emotes.
- `listed` — named asset lists: lookup by name finds the last asset listed
  under it.
- `layers` — which groups of a character drawing become render layers, and
  the layer modes.
- `drawing` — reading a character drawing: hidden parts shown, the SVG text
  parsed (by `roxmltree`), its groups walked in document order, the layers
  picked.
- `chains` — the walk over a layer's surfaces that lays their textures end to
  end, pass by pass.
- `edit`, `portal`, `editor` — the level editor's tools: the edit tool's
  gesture state machine, portal linking and removal (links survive removals),
  tool and option cycling (names in `str` order), expected-path editing.
- `tile_tool`, `surface_tool`, `cannon_tool` — the placing tools: triangles
  from three corners (never more than two waiting), surfaces by drag, wind
  drags and wind copy/paste, cannons and objects.
- `controls`, `customizer`, `hud` — key bindings, name typing, and the texts
  of the run timer and the leaderboard.
- `hash_rc`, `level`, `text` — pointer-keyed shared assets, level objects,
  string equality.

`app/` is the program around it: plane geometry and physics (floating point),
recorded runs and their files, level files, the floating-point parameters
of the drawing's layers, and the relay server's TCP side. The game window
itself needs the `geng` engine, which this build does not include.
