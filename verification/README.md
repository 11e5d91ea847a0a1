# arbitrage

Order-book bookkeeping and pair-trading arithmetic for a market-data system that
listens to exchanges, stores order books as full snapshots and deltas, shows price and
spread charts, and tests trading strategies on a pair of instruments.

The library in `src/` is verified with Verus: each public function states what it
returns in its contract, and the laws of the system are proof functions.

- `decimal`: decimal numbers as a mantissa and a scale; the arithmetic is
  `rust_decimal`'s, called through a few trusted wrappers.
- `model`: instruments, order books, levels, events.
- `order_book`: best prices, liquidity filters, spreads of a pair, weighted prices.
- `book_delta`: deltas between snapshots of a side and their application
  (`law_delta_rebuilds_side`).
- `feeds`: the listeners' decisions (whole book or delta, when a stored book is saved
  whole), exchange messages to events (`law_listener_delta_rebuilds_book`).
- `storage`, `stored_books`: dictionary codes, rebuilding stored sides and whole query
  results from snapshots and deltas, row by row, stopping where the price dictionary
  must be reloaded, cache file names (`law_stored_delta_reads_back`,
  `law_rebuild_completes_with_known_prices`, `law_store_reads_back_books`,
  `law_listened_books_read_back`).
- `events`, `market_events`: merging streams of events by time (`law_merge_keeps_streams`,
  `law_merge_sorted`), books a given time ahead, the nearest book to a time.
- `pair_deal`, `trading`, `perfect_trader`: simulated and analysed deals, their
  settlement and profit (`law_leg_closes_once`).
- `charts`, `viewer`: the viewer's series, groups and selections
  (`law_selection_gives_back_instruments`).
- `walk_forward`: the buffer bookkeeping of the walk-forward signal model.
- `alor`: the broker session's access token and the paging of its instrument list.
- `text`, `stats`, `clock`, `quotes`: decimal text and the CSV header
  (`law_csv_header_fields`), tables over a statistics provider, times, broker quotations
  and trades.

`app/` holds what the library does not: conversions to `rust_decimal` and `chrono`
types and their serde forms, the bincode cache, the `f64` statistics, the pair
trader's float decisions, the `f64` values and scores of the signal models, and a
small program that reads exchange messages from standard input.
