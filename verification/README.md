# market-capture

Records live market data of perpetual markets, replays what was recorded, and exports it as a
partitioned Parquet dataset. The library under `src/` is verified with Verus: its functions carry
contracts, and the properties that hold across functions stand next to them as proof functions.

- `src/domain`, `src/market_data`: exact decimals, market identifiers, normalized events, books.
- `src/venue`: adapters for Aster, Binance, Hyperliquid and Lighter, trade deduplication, and the
  session that connects, subscribes and reconnects.
- `src/recorder`: the stored form of events, segment files, recovery after a crash, manifests,
  validation, and the coordinator that numbers events.
- `src/engine`, `src/replay`: the deterministic engine and replays through it.
- `src/export`: rows, partitions and the steps of an export.
- `src/trader`: settings, capture metadata, and the way of live events.
- `src/text`, `src/parsing`, `src/json`, `src/bytes`, `src/hashing`, `src/keyed`: texts, written
  JSON, byte strings, digests and small keyed lists that the rest shares.
- `tests/`: tests of the library.
- `app/`: the programs around it, with everything that touches files, sockets, signals and clocks:
  `market-capture trader`, `market-capture replay`, `market-capture export-parquet`.

What the outside crates promise is stated at the functions that call them; each says in its
comment what it claims and what it leaves unsaid.
