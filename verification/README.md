# hashattr

A tool that computes message digests of files (through OpenSSL), stores
them in the files' extended attributes `user.hash.<algorithm>`, and later
prints, checks, lists or removes them, over many files and worker threads.

- `src/` is the verified library (Verus): the hand-over buffer between the
  directory walker and the workers (`transmitter`), the walk's decisions
  (`finders`), hexadecimal text (`hex`), digests of a byte stream by several
  algorithms at once (`digest`), a file's attribute names and checks
  (`file`), what each job decides for one file (`hashutil`) and which job
  to run with how many workers (`jobs`).
- `app/` is the program around it: command-line parsing, the extended
  attribute calls, reading files, threads, locks and printing.
- `tests/` exercises the library.
