# connector

The logic of a market-data collector and of order connectors for Binance, written and proved in
Verus. The library decides; the application around it connects, sends, reads and writes.

| Module | What it does |
| --- | --- |
| `binancespot::ordermanager` | The orders of a connector, merged from two channels that may be late or repeat themselves. |
| `binancespot::market_data_stream` | Books that follow the exchange from snapshots and numbered changes. |
| `binancespot::user_data_stream` | The session that orders go through, balances, and the sweep of open orders at the start. |
| `binancespot` | Submitting and canceling orders over a session, with REST to fall back on. |
| `binancespot::msg` | The messages of the exchange, read from and written as JSON. |
| `binancefutures::rest` | Requests to the futures exchange and the bucket that limits their rate. |
| `collector` | Which streams to connect to, and the files that hold what arrives. |
| `decimal`, `double`, `json`, `text`, `table`, `clock`, `types`, `live` | What the others are made of. |

Prices and quantities are whole numbers of units of `10^-12`; times are nanoseconds since the epoch.

What holds across operations stands in the proof functions whose names begin with `law_`. Whatever
is believed of other crates and of the standard library, rather than proved, stands in the functions
marked `external_body`, in the `assume_specification` in `text`, and in the functions without a body
that name what an outside call returns.

`app/` holds the connections, requests and files. It takes the random texts, the signatures and the
REST client of the spot exchange from the program it runs in (`app/host.rs`).
