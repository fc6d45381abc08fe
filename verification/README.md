# async_chat_server

A line-oriented chat: a server that admits clients after a username line and
a password checked against an RSA-encrypted secret, and clients (terminal and
windowed) that log in and exchange lines.

- `src/` is the verified library. `text` trims and compares texts;
  `client` builds the client's lines and judges the server's reply;
  `server` is the per-connection session as a state machine from events to
  actions, with the notices it broadcasts and the start menu's choice;
  `client_server_utils` checks a password with OpenSSL and picks the
  machine's public IPv4 address; `gui` is the chat window's model.
- `app/` runs the programs: `server` (default), `client` and `gui` as first
  argument. It does the networking, the terminal, the key files and the
  window drawing, and hands the library plain values.

The server expects `src/keys/private_key.pem` and `src/keys/password.enc`
under the directory it runs in. With the `openssl` tool:

    openssl genrsa -out private_key.pem 2048
    openssl rsa -in private_key.pem -pubout -out public_key.pem
    openssl rsautl -encrypt -inkey public_key.pem -pubin -in password.txt -out password.enc

A private key locked by a passphrase makes OpenSSL ask for it on the
terminal. Menu choice 2 of the server writes `password.enc` from `public_key.pem`.
