# tradebot

A verified library for a strategy-trading pipeline.

- `market` — candle streams (`OhlcSpec`), decisions, traders, and the stream
  search key `/exchange/pair/period`.
- `eval` — the evaluation service's request and response, the twelve-hour
  history window, and keying a candle history by time.
- `request_index` — strategy requests grouped by stream key.
- `decision` — the decider: reloading assignments, choosing the evaluations a
  candle update sets off, the retry policy, and what follows an outcome
  (position request and log record).
- `node` — numbering outgoing requests to a remote node and matching responses
  to their waiting responders.
- `order` — the fields of an exchange market order.
- `ids` — fresh random ids and the clock.

`app/` holds the asynchronous shell: actors, the services the library talks
to, serializable copies of its messages, and the exchange payloads that carry
floats.
