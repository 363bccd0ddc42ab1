# educhain_backend

The rules of a small learning platform that runs as an Internet Computer
canister, written in Verus and proved against their contracts.

- `src/` is the verified library. `Platform` holds the state; each canister
  endpoint is a method that takes the calling principal (and, for a course
  request, the current time) as arguments. Its view, `PlatformState`, states
  every operation's effect and reply exactly; `src/laws.rs` proves what holds
  across operations (a role read back after it is assigned, dropping out
  undoing an enrollment, idempotent bans, grading moving one certificate, and
  so on).
- `app/` is the canister itself: it reads the caller and the time from the
  Internet Computer, keeps the platform in canister memory, converts between
  the Candid wire types and the library's types, and traps where the
  library's guards refuse a call.
- `tests/` exercises the library on concrete scenarios.
