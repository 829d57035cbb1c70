# metaproxy

An HTTP proxy server whose bindings are managed through a REST API: each
binding is a local port whose listener relays connections to an upstream
proxy, tunnelling `CONNECT` requests and forwarding plain requests with their
headers adjusted.

The decisions of the server are a verified library under `src/`:

- `api` – the registry of bindings and the answers of the API (create,
  update, delete, health), with laws on how requests change the registry;
- `scan` – reading a request or response head byte by byte up to its blank line;
- `headers` – rewriting a forwarded head and adding proxy credentials;
- `request` – parsing a head (through httparse) and planning the bodies its
  `Content-Length` headers announce;
- `upstream` – the upstream URL (through url) and credentials (through base64);
- `connection` – what to connect to and what to send first;
- `health` – counting recent requests;
- `text` – CRLF lines, ASCII case, decimal numbers;
- `error`, `config` – the error type and the configuration.

`app/` is the program around it: command line, the warp API server, the Tokio
listeners and sockets, and the actix-web health handler.
