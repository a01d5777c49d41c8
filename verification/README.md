# bowling

The lobby, turn and scoring logic of a multiplayer bowling game, verified with Verus.

Hosts open lobbies, players join them from their phones, and the server keeps the
turn order, checks every throw and report, and keeps ten-pin scorecards.

## Layout

- `src/scoring.rs`: frames, marks and scores of ten-pin bowling.
- `src/state.rs`, `src/strmap.rs`: the server's state (lobbies, sessions, games) and the
  map type that holds it.
- `src/board.rs`: member lists and scoreboards as the clients see them.
- `src/lobby.rs`, `src/requests.rs`, `src/game.rs`, `src/server.rs`: what each request,
  disconnection and timeout does to the state, and which messages go to whom.
- `src/ids.rs`: lobby codes and session identifiers.
- `src/controller.rs`: the state of the controller client.
- `src/laws.rs`: properties that span operations (consistency of the state, what
  reconnecting gives back, bounds on scores).
- `app/`: the WebSocket server around the library (I/O, JSON, timers, throw-parameter
  checks on floating-point values).
- `tests/`: scenario tests.
