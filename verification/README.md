# mediaflow_proxy

The decision logic of a streaming media proxy, verified with Verus.

- `src/` is the library. Every function in it has a contract that is proved:
  playlist rewriting (`hls`), DASH manifests and the HLS playlists made of them
  (`mpd`), signed and plain proxy URLs (`auth`, `proxy`, `utils`), Telegram media
  (`telegram`), video hosts (`extractor`), and configuration and routing
  (`config`, `route_pattern`). `text`, `string_map` and `codec` are what these
  build on.
- Calls into other crates stand behind small wrappers marked
  `#[verifier::external_body]`. Their contracts are believed, and the comment
  above each says which call it makes and what is claimed of it.
- `tests/` runs the library on concrete values.
- `app/` is the service around the library: HTTP handlers, upstream connections,
  and times with fractions.

Durations, offsets and frame rates have fractions. The library holds them as the
text that is written, or as an integer that orders them; the service computes
with them.
