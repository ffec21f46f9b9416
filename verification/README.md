# so4_markets

Verified state models of the SO4 market contracts, written in Verus.

- `src/bytes.rs`, `src/collections.rs`: byte strings (addresses, token
  identifiers, codes, storage keys, big-endian amounts), an insertion-ordered
  map and a swap-removal set — the shapes the contracts keep their storage in.
- `src/referral.rs`: the referral registry (codes, trader links, tiers, tier
  rebates, trader discounts, and the storage keys each operation keeps alive).
- `src/deposit_flow.rs`, `src/withdrawal_flow.rs`: request books with fresh
  ids, receipts and their status lifecycle, and per-account indexes.
- `src/position_list.rs`: per-account position keys with counts and pagination.
- `src/storage_ttl.rs`: key lifetime policies, extension, expiry, sweeping.
- `src/swap_route.rs`: swap path checks, hop planning, price fetch order,
  hop settlement and the running state of a multi-hop swap.

Each module states its operations as transitions on a value model and proves
the laws the contracts rely on (`law_*` proof functions).

`app/` holds the chain glue: the Soroban referral contract, the MultiversX
modules, and swap execution against the oracle, data store and market pools.
