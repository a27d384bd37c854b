# minesweeper

A multiplayer minesweeper: a server keeps lobbies, each with one game that
every connected player sees and plays, and a browser client draws the
board and sends the players' clicks.

The rules and decisions are a library verified with Verus (`src/`):

- `tile`, `grid`: tiles, grids stored row by row, placing bombs and
  counting them around each tile, choosing where bombs go away from the
  first discovered tile.
- `game`: the game itself — discovering tiles (with the flood fill over
  empty tiles), flags, cursors, and the events that players are told —
  and the laws that hold across moves.
- `server`: a lobby's state machine (who is sent what), the table of
  lobbies, and who a request comes from (signed tokens, guests).
- `client`: what a click asks for, how the client's board follows the
  server's events, the board component's decisions, the pages' forms.
- `model`, `messages`: what travels between client and server.

`app/` holds what runs around the library: the HTTP and websocket server,
the lobby threads, the browser components and the serialised forms of
the messages.
