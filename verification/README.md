# cfx_evm

The state layer of an EVM-compatible transaction executor, verified with
Verus: accounts cached over a key-value store, nested checkpoints that can be
discarded or reverted, the commit of the cache to the store, and the checks,
payments and refunds around the run of a transaction.

## Layout

- `src/` — the verified library.
  - `types`, `uint`, `codec`: words, hashes and addresses; 256- and 512-bit
    arithmetic, Keccak and RLP, each through a trusted wrapper of the crate
    that computes it.
  - `assoc`: a finite map kept as a vector of distinct keys.
  - `collateral`: storage collateral occupied and released per address, and
    the changes a transaction reports, in ascending order of address.
  - `account`, `storage_key`, `storage`, `statedb`: stored accounts, the keys
    they are stored under, storage backends and the typed database over them.
  - `overlay`: an account as the state caches it, and its commit.
  - `state`: the cache of accounts, its checkpoints and its commit.
  - `observer`: internal-transfer traces and the gas estimator.
  - `executive`, `execution`: intrinsic gas, contract addresses, frames, and
    the phases of a transaction before and after the VM runs.
  - `spec`, `parameters`, `internal_common`: parameters and shared records.
- `tests/` — tests of the library on concrete values.
- `app/` — the serde form of the debug record, error messages, and the
  driver that hands a transaction's top frame to a VM.
