# plc_mirror

A mirror of the PLC directory. It follows the log that the directory exports,
stores the operations, works out the DID documents that follow from them, and
serves them.

`src/` is the library, verified with Verus:

- `text`, `json`, `clock`, `ident`: texts, JSON values, points and lengths of
  time, identifiers;
- `models`, `document`: the records, and the document that an operation gives a
  DID;
- `storage_keys`, `store`, `database`, `holdings`: the keys, the steps in which
  the store changes, what is made of what was read, and what the store holds
  after it was written;
- `listing`: lists in the order of time, pages and searches;
- `circuit`, `scraper`, `request`, `sync`: the circuit breaker, the waits and
  the batch size, one request with its retries, a synchronisation;
- `web`: what is answered to those who ask.

The functions named `law_...` state what holds of the library as a whole.

`app/` is the program: it opens the store, sends the requests, waits, and runs
the web server, as the library says. `tests/` holds the tests.
