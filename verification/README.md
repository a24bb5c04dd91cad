# core-mx-life-bonding-sc

The Itheum life bonding contract as a verified library: bonds of a payment
token on data NFTs, penalties that move value from bonds into compensations,
proofs of refund and refund claims, and the queries over all of it.

- `src/` is the library, verified with Verus. `storage.rs` holds the whole
  contract storage as one value with its spec view; `admin.rs`, `config.rs`,
  `bonding.rs` and `views.rs` hold the endpoints, each stating exactly when it
  is refused and what it leaves behind; `mapper.rs` and `collections.rs` hold
  the containers the storage is made of; `laws.rs` and `accounts.rs` hold what
  holds across calls.
- `tests/` runs the library on concrete scenarios.
- `app/` converts the MultiversX framework's managed values to and from the
  library's plain values and runs the endpoints on them.

Token amounts are unbounded: `src/amount.rs` holds them as little-endian
bits with a `nat` view and verified addition, subtraction, multiplication
and division.
