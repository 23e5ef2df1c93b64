# server_common

The common parts of a remote desktop server: where it listens, how its arguments are found, which
of its configured servers are valid, when it is out of date, and how it gets its key.

- `src/` is the library. It is written in Verus: each function states what it gives back, and Verus
  proves it. The laws that hold of several functions together are public proof functions.
- `tests/` runs the library, the key procedures among them on a file system in memory.
- `app/` connects the library with the file system, the network and the environment.

The key procedures (`key_path`, `key_permissions`, `private_key`, `public_key`, `gen_sk`) are
machines. The state of a machine names the next request, such as to create a file; the answer gives
the next state. So all decisions lie in the library, and `key_world` proves what they mean for the
files: nothing that exists is overwritten, a new key is never readable by others, a missing public
key's file appears whole or not at all, and temporary files are removed.
