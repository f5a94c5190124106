# Bones

A multiplayer dice table for **Bones** (5 dice) and **Farkle** (6 dice), with its rules verified by
[Verus](https://github.com/verus-lang/verus).

- `src/` is the verified library.
  - `scoring`, `scoring_laws`: what dice are worth.
  - `room_model`, `game`, `requests`: what a room is, what every move makes of it, and the code
    that does it.
  - `room_laws`, `game_laws`: what holds of every room, and the rules of play as laws.
  - `rooms`, `hub_model`, `hub`: the rooms of a process, and the hub that works off what players,
    the shared store and the clock ask of them, one step at a time.
  - `hub_laws`, `hub_progress`: what holds of the hub, and that it comes to rest.
  - `protocol`, `session`, `store`, `report`, `site`: messages, connections, keys of the shared
    store, bug reports, and the page that is served.
  - `text`, `ids`, `chance`, `clock`: what the others are built on.
- `app/` is the server: HTTP and WebSocket with axum, the game loop with Bevy, rooms shared through
  Redis, and the wire shapes of messages and rooms.
- `tests/` runs the library.

A request that is refused changes nothing, and its answer says why. A step that would take a number
of a room out of the range of its machine type is not taken: `Hub::step` gives that room up and
tells which one it was.
