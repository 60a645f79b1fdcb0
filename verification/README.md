# tatami_fuzz

Verified reference models, generators and verdicts for fuzzing an SSH stack.

A fuzz target has three parts: it draws a test case from the input, runs the
code under test, and decides whether what came back is right. The first and
the last part live here, in `src/`, and every function of them is proved
against its contract. The middle part is in `app/`: libFuzzer entry points
that call the protocol crates and assert the verdicts.

| Module | Contents |
| --- | --- |
| `wire_core` | bytes, cursor, errors, identification grammar, name-lists, message layouts, `mpint`, key-exchange layouts, structured input |
| `wire_ident`, `wire_primitives`, `wire_messages`, `wire_samples`, `kex_codecs`, `ext_codecs` | verdicts on the wire codecs |
| `tcp_support` | input cursor, chunk schedules, line reader, packet framing, message model, machine driver, stream generator |
| `identification`, `initial_packets`, `probe`, `observer`, `input_buffer` | verdicts on the TCP side |
| `kex_support` | base64, proposals, negotiation, hashing, key derivation, AES-GCM packets, deterministic random stream |
| `negotiation`, `key_blobs`, `gcm_packets`, `handshake` | verdicts on the key exchange and on whole handshakes |
| `state_support` | calendar, JSON written and parsed, record vocabulary, channel-opening model |
| `json_values`, `observation`, `report_json`, `channel_opening` | verdicts on records, reports and channel opening |
| `seqs`, `text`, `digits` | shared vocabulary |

The cryptographic primitives are those of `sha2`, `aes-gcm`, `ed25519-dalek`
and `x25519-dalek`; `serde_json` holds the independent JSON values, and
`arbitrary` draws structured input. Each call into them stands behind one
function whose contract says what is taken on trust.

`tests/` holds the tests on concrete values.
