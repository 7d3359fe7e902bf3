# individuality

The logic of three runtime pallets of a proof-of-personhood system, written as state
machines over explicit state and verified with Verus:

- `people_multi`: personal ids reserved for future people, keys of recognized people gathered into rings, ring roots built from them
  by a ring crypto the runtime chooses, accounts held under contextual aliases, and the
  `AsPerson` transaction extension (`people_multi/extension.rs`).
- `people_lite`: lite people registered through attestations of verifiers, and the
  transaction extension that lets a signed origin act as a lite person or register as one.
- `resources`: consumers registered as lite people or people, their usernames and username
  reservations, and their allowance in the statement store.

Around them: `reality` (identifiers and the people traits), `runtime` (origins, dispatch
errors, weights, validity), `table` (the verified map the pallets keep their storage in),
`encoding` (the SCALE encoding and BLAKE2 hashing the pallets call), `weights` and `mock`.

Each pallet's state carries an invariant (`wf`) that every call keeps; calls return the
effects they ask of the system pallet (`SystemEffect`) and the origin a call is to be
dispatched with, and the runtime performs them. Laws that relate several calls are the
`law_*` proof functions.

`app/` holds the runtime glue: decoding genesis chunks and transaction implications, and
refusing configurations that fail the integrity test.
