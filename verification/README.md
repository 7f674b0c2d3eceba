# mpboard

The board logic of a multiplayer falling-block puzzle game, with machine-checked
contracts on every operation.

- `src/rules.rs`: board size, piece shapes, rotation kicks, twist corners.
- `src/block.rs`: a piece and its cells.
- `src/board.rs`: the board: moving, turning, holding, dropping, clearing
  rows, incoming garbage and outgoing attacks, and the replies to messages.
- `src/garbage_attack_manager.rs`: pending garbage and the attack table.
- `src/random_generator.rs`: pieces dealt from shuffled bags of seven.
- `src/display.rs`, `src/replay.rs`, `src/protocol.rs`: snapshots, records
  and messages.
- `src/client.rs`: the decisions of an automated player's client loop.
- `src/laws.rs`: properties that span several operations.
- `app/`: the wire form of a display and the client loop itself.
