# emvault-pkcs11

Signing for EmVault federations with keys that stay in an HSM.

- `src/` is the library, verified with Verus. It decides what to ask of a token
  and what to make of the answers. Each operation is a state machine that asks
  for one call at a time; its contract gives the whole course of requests for
  every reply. `src/laws/` states what holds of the library as a whole, such as
  that a saved policy is the one that is loaded, that a loaded signer is the one
  that was derived, that neither a forbidden transaction nor one beyond the
  hourly ceiling is signed, and that what is signed is counted.
- `app/` makes the calls: on PKCS#11 modules through cryptoki, on the clock, on
  the environment and on JSON. It also gives signers the traits of EmVault, BDK
  and Elements.
- `tests/` runs the library, on plain values and against a software token.

## Objects on a token

All labels start with `emvault/v1/{label}/`.

| Object    | Class             | Holds                                          |
| --------- | ----------------- | ---------------------------------------------- |
| `priv`    | `CKO_PRIVATE_KEY` | the master key, which cannot be read out       |
| `policy`  | `CKO_DATA`        | the policy                                     |
| `sigrate` | `CKO_DATA`        | the times of the last hour's signatures        |

The federation key is derived from the master key along the signer's path, anew
in each session. The policy and the counter are replaced as a whole: the new
object is created before the old one is destroyed.

## Signing

1. The policy is read, and the outputs are held against its limit and its list of
   destinations.
2. If any input is the signer's, the counter is held against the ceiling on
   signatures in the trailing hour.
3. Each input that is the signer's is signed, up to the first that cannot be.
4. If any was, one signature is counted. Where that fails, the transaction comes
   back as it was.

## A fleet in the environment

`EMVAULT_FLEET_NETWORK` names the network. The members are numbered from zero;
each has `EMVAULT_FLEET_<i>_VENDOR`, `_LABEL`, `_LIB`, `_SLOT` or `_SLOT_ID`,
`_PIN`, `_PATH`, and optionally `_KEY` (`shim`, `load` or `seed:<hex>`).
