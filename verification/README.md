# ssh-agent-fs

A small read-only FUSE filesystem that shows the public keys held by a running
SSH agent as files with predictable names, so that `~/.ssh/config` can refer to
them with `IdentityFile`.

- `src/` is the library: file names, key records, the tables of files and
  inodes, the answers to the kernel's requests, the choice of a mountpoint and
  the test that a directory is safe to mount on. It is verified with Verus.
- `app/` is the program around it: FUSE, the agent's socket, the environment and
  the disk. It does what the library tells it and reports back.
- `tests/` runs the library.

The library relies on `ssh-key` to read keys and to write them down, and on a
few functions of the standard library. A doc comment in `src/` says of each such
call what is taken for granted.
