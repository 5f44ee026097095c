# Ferraria

The verified core of a two-dimensional sandbox game: an authoritative server
that simulates a world of tiles, and the client's side of the same game.

    src/            the library, verified with Verus
      tile, grid    cells, worlds and what stands in them
      item, stacks, chest
      sim/          the server: liquids, falling sand, growth, mining, placing,
                    drops, enemies, combat, survival, chests, sessions, the tick
      worldgen/     the passes that make a world, and pictures of it
      client/       the client: world view, mirrors, panels, chat, what a frame asks
      net, settings what connections, variables and command lines lead to
    tests/          tests on concrete values
    app/            the program around the library

Whole numbers are decided on in `src/`. Positions, speeds, noise and random
numbers come in as arguments: as bit patterns, as rolls, or as the cells that a
path covers.

`ferraria` serves on `PORT` (3000) a world grown from `WORLD_SEED` (42), and the
pages in `WEB_DIR` (`web`). `ferraria preview <seed> <out.png> [downscale]
[crop=x,y,w,h ...]` draws a world.
