# Cambium

Cambium keeps the users and roles of a Sonatype Nexus Repository 3 in line with Keycloak, and
offers a small proxy that lets command-line clients sign in to Nexus with their Keycloak
password.

Two commands:

- `cambium sync` (also the default) reads groups and roles from Keycloak at intervals and
  reconciles them into Nexus. Roles that were assigned in Nexus by hand are kept; roles that
  Cambium granted are taken away again once Keycloak no longer justifies them.
- `cambium ropc-proxy` takes Basic credentials, has Keycloak check them, and forwards the request
  to Nexus with the identity in the header that Nexus trusts.

Nexus must not be reachable except through the proxy, and the synchronisation must run as a
single instance.

## Layout

`src/` is the library. Everything in it is verified with [Verus](https://github.com/verus-lang/verus):

- `sync`: which roles a user should have
- `discovery`, `discovery_laws`: the walk through the group tree
- `user_sync`: the synchronisation of one user
- `pass`, `pass_discovery`, `pass_effects`, `pass_laws`: a whole pass, and what holds of it
- `manifest`: the record of what Cambium granted
- `keycloak`, `nexus`, `http`: what is asked of the two services and how their answers are read
- `config`: the settings
- `ropc`, `token_cache`, `proxy`: authentication and forwarding
- `lock`, `error`: a single instance, and failures
- `text`, `string_set`, `string_map`: texts and collections
- `outside`: the calls into other crates and into the standard library, whose contracts are
  trusted

`app/` is the program around it: HTTP, files, JSON, logging. `tests/` holds the tests.

Where work with a service and decisions alternate, the library holds a state machine that says
what to do next and takes the answer, and the program does what it says.

## Settings

Synchronisation: `ROLE_MAP` (such as `kc-dev:nx-dev,kc-ops:nx-ops`), `KEYCLOAK_URL`,
`KEYCLOAK_REALM`, `KEYCLOAK_CLIENT_ID`, `KEYCLOAK_CLIENT_SECRET`, `NEXUS_URL`, `NEXUS_USERNAME`,
`NEXUS_PASSWORD`; with defaults `POLL_INTERVAL_SECONDS` (60), `STATE_FILE`
(`/var/lib/cambium/state.json`), `FALLBACK_EMAIL_DOMAIN` (`cambium.invalid`),
`RESERVED_USERNAMES` (`admin,anonymous`), `LOCK_FILE` (`/var/lib/cambium/cambium.lock`).

Proxy: `KEYCLOAK_ISSUER`, `KEYCLOAK_ROPC_CLIENT_ID`, `KEYCLOAK_ROPC_CLIENT_SECRET`,
`NEXUS_UPSTREAM`, `RUTAUTH_HEADER`; with defaults `IDENTITY_CLAIM` (`preferred_username`),
`CACHE_TTL_SECONDS` (60), `LISTEN_ADDR` (`0.0.0.0:8090`).

Both: `ALLOW_INSECURE_HTTP` accepts plaintext `http://` upstreams where it is `1`, `true` or
`yes`.
