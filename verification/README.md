# ModelDeck

A control plane for the docker stacks of a few AI VMs. Saved, known-good inference services
("service profiles") are activated on a VM: their tied files are written into a directory of
their own, their compose document is brought up under one stable project, and the published port
is checked.

The logic is a Verus library; every function of it is verified against its contract.

- `src/` holds the library. It does no I/O: what a command, a file or a peer said comes in as a
  value, and what is to be run, written or sent goes out as one.
  - `text`, `search`, `numbers`, `size`: text and numbers.
  - `kinds`, `records`, `names`: the vocabulary, the records, and the names that may become paths.
  - `paths`, `files`, `tree`: Unix paths, the check that keeps a request inside a directory, and
    the directories of a VM.
  - `docker`, `gpu`, `models`, `activate`, `download`, `agent`: what the agent of a VM does.
  - `client`, `store`, `hub`, `ingress`, `console`: what the hub does.
  - `outside`: everything that is taken on trust, with what is claimed of it.
- `app/` is the program around it: `modeldeck agent` on a VM, `modeldeck` for the hub.
- `tests/` runs the library.

Laws that relate several functions are public proof functions beside the functions they are about:
that an activation stays in its tree and leaves the directories of other models alone, that compose
is run only when everything is in place, that a confined path lies within its root, that a stored
profile reads back as it was, and more.
