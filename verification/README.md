# lua_proxy

A reverse proxy that Lua plugins can program, with its rules written and proved
in Verus.

- `src/` is the library: the course of a request, load balancing and health,
  the plugin pipeline and what plugins may call, the administration API, reloads
  and certificates. The `ensures` of the functions state what they do, and the
  `law_` functions what holds of the library as a whole. What a Lua script does
  is up to the script; the library states what it hands to the machine and what
  it makes of the answer.
- `app/` is the server: sockets, files, the clock and the process around it.
- `tests/` runs the library, Lua machine and all, on concrete values.

Plugins define `on_request`, `on_route`, `on_transform` and `on_response`. Each
answers to a hook only with the function that its own script defines. The
settings are read from `proxy.toml`, or from the file named on the command line.
