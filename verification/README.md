# graphite

The verified core of a runtime that lets native Rust mods react to a game
host's ticks through shared memory.

- `src/` is the library, verified with Verus:
  - `protocol`: offsets, sizes and codes of the shared-memory layout;
  - `le`: little-endian encoding of the layout's integers;
  - `commands`: the command ring that mods write into, with the laws that a
    push appends its record to the unread bytes and that a refused push
    changes nothing;
  - `world`: the read-only view of a world snapshot (entities, players,
    chunk sections, block lookup);
  - `shared_mem`: checks on the shared regions and the addresses of their
    fields;
  - `tick`: the decisions of the tick thread;
  - `loader`: which files are mod libraries, the names of temporary copies,
    and the list of loaded mods;
  - `diagnostic`: the diagnostic mod;
  - `text`, `bridge`: decimal rendering and the host's debug line.
- `app/` holds what the library leaves out: the JNI entry points, threads,
  atomics on the real shared memory, dynamic library loading, the mod ABI
  with its `graphite_mod!` macro, and the floating-point particle shapes.
- `tests/` exercises the library on concrete values.
