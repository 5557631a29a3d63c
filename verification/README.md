# meridian

The verified core of Meridian, a local Nginx proxy manager: reverse-proxy
and stream rules, certificates, IP access lists, the system hosts file,
encrypted recovery bundles, access-log metrics and DNS-01 certificate
requests.

- `src/` is the library, written in Verus. Every function carries a
  contract; the relations between functions (conflict detection, the apply
  and clean-up procedures, hosts-file idempotence, record-id round trips,
  parameter ordering and percent-encoding of signed requests) are stated as
  `law_*` proof functions. Calls into the cryptography, encoding and
  certificate crates go through small wrappers whose contracts name or
  describe what those crates compute.
- `tests/` runs the library on concrete values.
- `app/` is the program around it: SQLite storage, files, the Nginx
  process, HTTP calls to the DNS providers and the ACME protocol. Its
  decisions (validation, conflicts, retries and time-outs, what to restore
  or reload) come from the library. For the metrics it reads the log
  lines itself (their latency fields are floating-point), adds a stream
  entry's sent and received bytes, and computes the latency averages and
  error rates; the library counts and buckets the entries.
