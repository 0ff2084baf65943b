# gost-upstream

An upstream HTTP proxy for tools that cannot speak GOST TLS. A client connects
with `CONNECT host:port` and sees an ordinary certificate for that host, signed
by a local authority. The proxy reaches the target over plain TLS where it can,
and through an `openssl s_client` with gost-engine, on this machine or on another
one over SSH, where it cannot.

## Layout

- `src/` is the library, verified with Verus: what the proxy computes and decides.
  - `raw_http` holds requests byte for byte: building, parsing, chunked bodies.
  - `connectors` holds the command lines of the GOST fallback and the collecting
    of replies.
  - `proxy` holds the proxy itself: targets, framing, the choice of a route, the
    exchange with a client, the authority and the TLS settings.
  - `text`, `ascii`, `numerals` and `scan` hold what the others share.
- `app/` is the program: command line, files, sockets, processes and threads.
- `tests/` runs the library on concrete values.

The library promises its results in `ensures` clauses. Properties that span
several functions are proof functions whose names begin with `law_`. Calls into
other crates stand behind small declarations whose comments say what is taken on
trust.

## Running

    gost-upstream --ssh-target user@vm-host

Without `--ssh-target` there is no fallback: every target is reached over plain
TLS or not at all. The certificate of the authority is written to
`gost-upstream-ca.pem` on the first start; clients have to trust it.
