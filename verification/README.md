# rubia

A small voxel game: a server that generates chunked terrain and relays player
positions, a client that draws the chunks it receives, and a map editor.

- `src/` is the verified library (Verus):
  - `world`: chunks, their generation from a height sampler (heights clamped to
    1..=10), flattening, the start-up world and the chunks sent around a player;
  - `messages`: client and server messages (positions kept as `f32` bit patterns);
  - `server`: the player registry and the handling of one client message;
  - `client`: the client's table of other players, its queue of received
    chunks and the cubes that draw a chunk;
  - `mapeditor`: the editor's data model and button handling;
  - `config`: the server configuration;
  - `roster`: a name-keyed map that keeps insertion order (players);
  - `keyed`: lemmas on key/value sequences read as maps;
  - `laws`: properties that span several functions.
- `app/` holds the programs (`rubia server|client|mapeditor`): networking with
  tokio and bincode, Perlin noise, and the bevy front ends.
- `tests/` exercises the library.
