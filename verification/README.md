# mildly-basic-auth

A transparent password-wall reverse proxy: it shows a password page, sets a
session cookie, and otherwise gets out of the way. The decisions behind it are
a verified library.

- `src/` is the library. `config` holds the validated startup configuration
  (with `environment`, `address`, `upstream`, `template`, `page` and `error`),
  and `gate` decides over each request (with `cookies`, `digest`, `encoding`,
  `forwarding`, `headers` and `text`). `laws` and `setup_laws` state and prove
  what holds across functions: that a login opens the session that it sets, that
  nothing forwarded opens a session, that passwords are revoked independently.
- `tests/` runs the library with the real outside crates.
- `app/` is the program: environment, files, sockets, HTTP.

## Usage

```yml
services:
  auth-gate:
    image: qrichert/mildly-basic-auth:latest
    ports:
      - "80:8000"
    environment:
      MBA_PASSWORD: "h3lloW0rld"
      MBA_UPSTREAM: http://app:2001
```

Use a long random `MBA_PASSWORD`: the session cookie is a fast digest of it, so
a leaked cookie is an offline verifier of the password. Over plain HTTP the
password and the session token are visible on the wire; for public deployments
put the service behind a proxy that terminates TLS and sets
`X-Forwarded-Proto`.

| Variable | Meaning |
| --- | --- |
| `MBA_PASSWORD`, `MBA_PASSWORD_<label>` | the passwords; at least one, all different |
| `MBA_UPSTREAM` | absolute `http(s)://host[:port]` URL to forward to |
| `MBA_ADDRESS` | IP socket address to listen on, `0.0.0.0:8000` by default |
| `MBA_TEMPLATE_FILE` | custom password page |
| `MBA_TEMPLATE_*` | texts of the password page |
