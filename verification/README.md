# booth2rss

Builds RSS feeds from the item listings of Booth.pm store pages.

- `src/` is the library, verified with Verus: reading store pages
  (`store_page`, `utils`), the page-by-page fetch decisions (`store_fetch`),
  the feed text of items and stores (`objects`), the command line
  (`argparse`), the web service's decisions (`service`), a response cache
  with expiry (`cache`), string helpers (`strings`) and properties that hold
  across these (`laws`).
- `app/` holds the programs: the command-line generator, and with `serve` as
  its first argument the web service (`GET /booth2rss/store?url=<store-url>`,
  with the optional `max-pages`, `allow_nsfw`, `unblur_nsfw`, `vrc_only`,
  `filter_unavailable` and `currency`).
  It performs the HTTP requests, reads item records as JSON and converts
  prices with exchange rates.
- `tests/` runs the library on concrete inputs.
