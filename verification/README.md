# dobutsu

A verified engine for Dobutsu Shogi (3x4 "animal shogi"), written in Verus.

A position is a `BitBoard`: seven 24-bit bitboards (the two players' pieces,
then lions, giraffes, elephants, chicks and hens), the low twelve bits being
the squares A1..C4 and the next twelve the two hands (D1..D6, E1..E6).

- `src/bit_board.rs`: the position type, square masks and hand masks.
- `src/moves.rs`: `make_moved_board`, the board after a move or a drop.
- `src/movegen.rs`: `next_move_list`, all moves of one player, in order.
- `src/eval.rs`: `judge` (won, lost or undecided) and `eval_function`.
- `src/search.rs`: `nega_alpha` (negamax with alpha-beta pruning) and
  `nega_scout`, with the proof that alpha-beta returns the negamax value
  inside its window.
- `src/parse.rs`: `make_bit_board`, reading the position sent by the game
  server, and the names of squares.
- `src/text.rs`: the text that shows a position.
- `src/protocol.rs`: the search depth and the server's messages.
- `src/well_formed.rs`: what a consistent position is, and the proofs that
  moves keep positions consistent and that taking the lion wins.
- `src/counts.rs`: the number of pieces of each kind, kept by every move.
- `src/mirror.rs`: the position seen from the other side, and the proofs
  that the two players' moves and move lists mirror each other.
- `app/main.rs`: the client that talks to the server over TCP.

Each function's contract states its result over spec functions, and Verus
proves every function against its contract.
