# totp_manager

The verified core of a local two-factor (TOTP) authenticator whose data is a
single JSON array of accounts kept next to the executable.

- `src/text.rs` — whitespace, trimming, upper-casing, a leading byte-order
  mark, and decimal digits.
- `src/totp.rs` — Base32 secrets as users type them, RFC 4226 dynamic
  truncation, RFC 6238 codes (HMAC-SHA1, six digits, 30-second steps) and the
  countdown, with the laws on them (separators and ASCII case in a secret
  change nothing; a code holds for its whole 30-second step).
- `src/vault.rs` — entries, the clean-up of what a user types, and the edits
  made to the list (add, edit, replace recovery codes, delete), with the laws
  on them (unique label + account, idempotent deletion and clean-up).
- `src/view.rs` — what the interface shows for each entry at a given time.
- `app/` — the Tauri desktop program: file access to `vault.json`, JSON
  (de)serialisation, window commands.
