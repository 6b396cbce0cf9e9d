# volo_example

A small key-value store spread over several servers, with its rules
proved in Verus.

- `src/table.rs`: a map with string keys, kept as a list of pairs with distinct keys.
- `src/store.rs`: `DB` (the value of each key) and `Tm` (the lifespan stamp of keys
  set with `setex`), and the expiry of stamps that have run out.
- `src/message.rs`: requests and responses.
- `src/server.rs`: the server `S`, the layout of its data file, and the rules by which it answers each request
  (`respond`, `serve`), including proxies that route by key and masters that pass
  writes on to their slaves.
- `src/client.rs`: reading a command line into a request, and showing a response.
- `src/text.rs`: splitting into words and lines, joining, reading an `i32`, finding a substring.
- `src/json.rs`: the JSON texts that `serde_json` writes (spelt out) and reads (named), and
  the proof that a text written on one line splits back into its lines.
- `src/config.rs`: the server list of `Server.json`, the default list and the example layout.
- `src/middleware.rs`: the screening layer in front of the service.
- `src/laws.rs`: properties across requests, proved over the rules.
- `app/`: the program around the library: the Thrift servers and client, saving
  data to JSON files, the clock, and the server list.

The clock is read in `app/` and handed to the library as milliseconds since
the Unix epoch.
