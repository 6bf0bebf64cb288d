# wow_vanilla_server

A server for the vanilla client, version 1.12, and a load test that drives it.

`src/` is the library: everything that the server decides, with what it decides
stated in contracts and proved. `app/` is the program around it: sockets, files,
the database, the terrain, and arithmetic on coordinates. `tests/` runs the library.

## How the library holds the world

* Coordinates, speeds and timers are bit patterns of floating-point numbers. The
  library compares them exactly (`numeric`) and does no arithmetic on them: where a
  rule needs a distance, the caller hands it in.
* Time is a count of nanoseconds since the server started.
* Chance comes in as a number, or from a state that the caller keeps (`dice`).
* What is said to players is a list of notices, each with its audience (`notice`).
  The program turns notices into packets.

## Where things are

* Logging in: `auth` (accounts and proofs), `logon` (the course of a login).
* Characters: `database`, `character`, `character_screen`, `inventory`, `item`,
  `player`, `snapshot`.
* The world: `world` (maps and players), `map_state` (one map), `spatial` (who stands
  where), `phases` and `tick` (what a map does in a tick), `server` (when it is saved).
* What happens on a map: `aoi` (who sees whom), `swing`, `spells`, `corpses`,
  `creature_ai`, `walking`, `spawning`, `departures`, `entities`, and what is told of
  it: `casting`, `telling`.
* Game masters: `gm_parser`, `gm_command`, `gm_reply`.
* The wire: `outbound` (budgets, headers, batches), `update_object`.
* How fast it ticks: `pacer`, `cell`.
* Where creatures come from: `world_db`, `pathfinding`.
* The load test: `loadtest`.
* Tables over hash maps and slabs of other crates: `tables`, `keyed`, `slabs`.

## What always holds

A sound map (`MapState::wf`) has every client in its spatial index, and a creature
exactly as long as it is not waiting to come back; every phase of a tick leaves a map
sound. No more players enter the world in a tick than the configuration allows, and
those who wait enter in order (`World::promote`). Of the creatures that walk or sleep none is dead, and each is listed once
(`MapView::paced`).

## Running it

Without arguments the program is the server. `loadtest` with its options is the load
test, either as the first argument or as the name under which the program is started:

```sh
ln -s wow_vanilla_server loadtest
./loadtest --role worker --target IP:3724 --clients 400 --ramp-up 30
```

With `WOW_TRACY=1` in the environment the server runs the Tracy profiler.

## Who may log in

Accounts with characters are known. With `WOW_AUTH_AUTO_CREATE=1` in the environment,
any other name is made known when it logs in; otherwise it is refused. The load test
needs it.

## What is taken on trust

Calls into other crates stand behind small functions whose contracts say what the
crate's source shows: hash maps (`ahash`), slabs (`slab`), logins and header ciphers
(`wow_srp`), tables of the game (`wow_world_base`, `wow_items`), random numbers
(`rand`). Each of these functions names the call that it stands for.
