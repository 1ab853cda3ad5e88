# iota_client

Client-side logic of an IOTA node client, written in Verus: every function in `src/` is
verified against its contract.

## Layout

- `src/` — the verified library.
  - Configuration: `client_builder` (nodes, quorum, timeouts, URLs), `address_options`,
    `options`, `bech32_address` (human-readable parts and Bech32 addresses).
  - Node API helpers: `query` (indexer query strings), `mqtt` and `mqtt_session` (topics,
    broker options, the decisions of the MQTT event loop), `input_search` (inputs that cover
    an amount, transaction acceptance polling).
  - Transaction building: `ledger` (the outputs and inputs the logic reads), `requirement`,
    `selection` (filtering and the chain, sender and issuer requirements), `amount`,
    `amount_requirement` and `amounts` (amount balance and the amount requirement), `mana`
    (mana sums, chains and the mana requirement), `native_tokens` and `token_amount` (native token balance
    and selection), `burn`, `transitions` and `chain_transitions` (automatic transitions
    of accounts, nfts, foundries and implicit accounts), `context_inputs`, `allotment`,
    `remainders`, `ordered_inputs` and `signing_order` (signing order), `unlocks`,
    `finishing` (output and input lists, mana rewards), `fulfilment` (working through the
    pending requirements), `builder` (the start of a selection and the finish of a
    transaction with its semantic validation and capabilities).
  - Support: `text`, `time` (time spans and the clock check against the tangle time),
    `hash`.
- `tests/` — tests of the library on concrete values.
- `app/` — what is not verified: JSON configuration, the MQTT event-loop driver, the loops
  that wait for a transaction's acceptance and join pages of output ids, and the scoring
  of inputs for the mana requirement.

Laws of the library are public proof functions named `lemma_*` beside the functions they
speak of.
