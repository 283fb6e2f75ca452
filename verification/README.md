# file_sorter

The core of a desktop application that sorts the files of a folder with the help of a
language model. The library is written in Verus: every function in `src/` has a contract
that is proved, and the laws that tie the functions together are proved beside them.

- `src/` is the library. It decides and computes, and touches neither the disk nor the
  network. `src/outside.rs` holds the few calls into other crates that are taken on trust.
- `tests/` runs the library on concrete values, with a disk and a model in memory.
- `app/` is the application around the library: the window and its commands, the requests
  to the model, and the work on the disk.

Paths are text in the notation of the system that they come from, which the application
hands to the library.
