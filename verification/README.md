# pallet_clubs

Clubs on chain: root creates clubs for owners (who pay a creation fee to a fee
collector), owners add members (who pay the annual expences of the club for each year of
their membership period), memberships are renewed when they expire until the owner
cancels them, and clubs can change hands for a fee.

Layout:

- `src/types.rs` – `Club` and `MemberShipData`.
- `src/dispatch.rs` – origins, errors, events and payments.
- `src/pallet.rs` – the pallet's state (`Pallet`), its model (`PalletState`) and the
  storage operations, each stated over the model.
- `src/calls.rs` – the calls: for each call that pays, the checks and the payment it asks
  for (`*_payment`), the call given the currency's answer (`*_with`), and the call that
  makes the transfer itself through a function `pay(from, to, amount)` that it is given;
  its contract ties what it returns to an answer that `pay` may give to that payment.
- `src/expiry.rs` – the expiry run (`membership_expired`, `on_initialize`).
- `src/laws.rs` – what holds across calls: the state stays well formed, refused calls
  change nothing, memberships stay scheduled for renewal, and more.
- `src/keys.rs`, `src/search.rs`, `src/account.rs` – packed storage keys, list searches and
  the fee collector's account.
- `app/lib.rs` – the FRAME side: the runtime's currency, origins, weights, errors and
  SCALE-encoded copies of the types.
