# solitaire_ecs

A multiplayer Klondike solitaire client built on a small entity-component world,
with its logic verified by Verus.

## Layout

- `src/` — the verified library.
  - `entity.rs`, `component.rs`, `ecs/` — entities, per-kind component storage and the
    world (`World`, modelled by `WorldView`: living entities and one map per kind of
    component), with laws such as "a component given to an entity is the one read back",
    "a change to one kind of component leaves the other kinds alone" and "a created
    identifier exceeds every identifier handed out before".
  - `components/` — the game's components: cards, piles, positions, players, the game
    state and the dragging info.
  - `rules.rs`, `logic/` — the rules of the game over cards and over the world, the deck,
    piles in order and the automatic move to a foundation.
  - `systems/` — dealing a game, moving a card, detecting a win.
  - `app/` — what a click, a double click, a drag or a server message does to the world;
    the layout of the board, the areas of the piles and the drawing order.
  - `protocol.rs`, `network.rs` — the messages exchanged with the server and the states
    of the connection.
- `tests/` — tests of the library.
- `app/` — the browser side: the page's entry points, the canvas drawing, the WebSocket
  and the JSON on it. It calls the library for every decision.
