# turboflow

A client library for Turboflow event contracts, verified with Verus.

The library (`src/`) holds the logic, each public function with a contract
that Verus proves:

- `text` — whitespace trimming, prefixes and searching over characters;
- `json` — the JSON values the service exchanges, their mathematical model
  (`JsonTree`), keyed lookups and the recursive key search;
- `utils` — bearer-token normalisation and reading a JWT payload (user id,
  expiry);
- `types` — errors, the reply envelope, credentials, order bodies and the
  event-contract table;
- `auth` — the location and content rules of the credentials file;
- `login` — what is read from the identity provider's and the service's
  login answers;
- `trader` — credential resolution, request headers, and what is read from
  each reply of the trading endpoints.

`base64` and `serde_json` are called from the library through a few trusted
wrappers whose contracts name what those crates compute.

`app/` is the unverified side: HTTP requests (`reqwest`), the credentials
file, environment variables, serde forms of the library's types, the token
expiry as a local date (`chrono`), and the arithmetic on floating-point
amounts and return rates.
