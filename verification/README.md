# vio_api

The Vio market API: market scans of a game's trading posts, stored in
MongoDB and served over HTTP under `/v1`, behind API keys with a rate limit
of 60 requests a minute.

- `src/` is the library, verified with Verus:
  - `table`: a map keyed by strings (a list of pairs with distinct keys).
  - `text`: character-level string helpers and decimal numerals.
  - `objects::market`: scans as stored (`helper`), scans as served
    (`market`), scans as reported by scanners (`raw_market`), and the
    resolution of stored offers against the directory of users.
  - `objects::database`: what the database calls compute: the directory of
    users, item histories, the latest state of items, query projections.
  - `objects::raw_market`: accounts, offers and items of a scan being put
    together.
  - `routes`: the API-key check and rate limiter, the route decisions and
    the error bodies.
- `app/` is the server: MongoDB reads and writes, Rocket routes, request
  guards, OpenAPI documentation and the serde forms of the data.
- `tests/` runs the library on concrete values.
