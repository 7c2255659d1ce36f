# utd_cause

Finds out why an encrypted Matrix room event could not be decrypted (an "unable to decrypt", or
UTD, event), so that a client can tell its user something better than "failed".

`UtdCause::determine` takes the JSON text of the event, the state of the current device, and the
reason that decryption failed for.

- `src/utd_cause.rs`: the causes and the rules that lead to them.
- `src/event.rs`: our membership when the event was sent, and the time when that was.
- `src/embedding.rs`: events without the events that they embed.
- `src/membership.rs`: the MSC4115 membership in the `unsigned` area of an event.
- `src/json.rs`: JSON objects and arrays, member by member.
- `src/decryption.rs`, `src/time.rs`: what is known of the failure, and points in time.
- `src/laws.rs`: what holds of the causes and of the memberships throughout.
- `app/`: the library on `ruma`'s own types.

The library is verified with Verus. It rests on `ruma` and `serde_json` in four places, each of
which is marked `external_body` and says what is trusted.
