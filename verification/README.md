# thisismyquant

The verified core of a desktop workbench for Chinese futures and A-share
research: simulated trading, a local database, and news, calendar and LLM-based
analysis. The library in `src/` is Verus code; every function carries a contract
and is proved against it.

- `src/text.rs`, `src/json.rs`, `src/time.rs`: text, JSON and date/time models.
- `src/config.rs`, `src/setup.rs`: `.env` parsing, the LLM provider catalog,
  preferences and the setup page.
- `src/crypto.rs`: credential masking and sealing (the sealed value opens again).
- `src/calendar.rs`, `src/mcp.rs`: the economic calendar, its payloads, filters
  and the MCP answer framing.
- `src/news.rs`, `src/events.rs`, `src/event_feed.rs`, `src/event_list.rs`,
  `src/stock_events.rs`: news records and the market event stream.
- `src/llm.rs`, `src/quotes.rs`, `src/stock.rs`, `src/assets.rs`,
  `src/insights.rs`, `src/datastore.rs`: provider routing, symbols, the stock
  catalog, asset listings, research views and the database catalog.

`app/` holds the I/O around the library (HTTP services, files, SQLite, serde
formats) and the parts that compute on floating-point prices. `tests/` runs the
library on concrete values.
