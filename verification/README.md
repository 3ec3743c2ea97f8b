# quote_stream

A stock-quote streaming service: a server generates quotes and streams the
tickers each client asks for to the client's UDP endpoint while the client
keeps pinging.

- `src/` is the verified library (Verus):
  - `text` — characters, splitting, white-space words, decimal numbers;
  - `price` — the text of a price, as `f64::from_str` accepts it;
  - `quote` — the record `TICKER|PRICE|VOLUME|TIMESTAMP`;
  - `command` — the endpoint `<protocol>://<address>` and the `STREAM` command grammar;
  - `client` — the client's settings and the request it sends;
  - `producer` — the server's ticker list file and the producer's schedule;
  - `generator` — ticker popularity and volume ranges;
  - `worker` — the per-client streaming decisions as a state machine;
  - `listener` — the client's listener: whom to ping, and when not to.
- `app/` holds the programs: sockets, threads, channels, the clock, the
  random price walk (floating point), and the command-line front end.
- `tests/` exercises the library.
