# freemkv_engine

The recovery engine behind ripping a damaged optical disc to an image: which
pass to run, what to read next, what to do when a read fails, what is known of
every byte, and what to tell a front-end. It is a library of decisions and
bookkeeping, written in Rust and verified with Verus; it performs no I/O.

- `entries`, `tallies`, `mapfile`, `mapfile_text`, `mapfile_round_trip`: the
  mapfile, in memory and as ddrescue-compatible text. A record changes exactly
  the bytes it names; what is written is read back as it was.
- `identity`, `keys`, `disc`: whose mapfile it is, and whether a disc can be
  decrypted.
- `copy`, `run`, `files`: which pass comes next, and what the state of the files
  means for it.
- `geometry`, `sweep`, `sweep_laws`, `sweep_outcomes`: the first pass. A sweep
  that comes to its end leaves nothing untried, each byte is as the last read
  over it came out, and the good bytes are the bytes read. Where it decrypts,
  every read starts on a unit.
- `read_error`, `read_error_laws`: the policy for failed reads.
- `sections`, `handlers`, `patch`, `patch_pass`: the later passes over what is
  damaged. A pass that comes to its end leaves the damage good or queued, and
  gives no byte up.
- `speed`, `progress`, `sink`: what a front-end is told.
- `language`, `streams`: which streams of a title to keep.
- `handoff`: handing work to another thread, and pausing.
- `text`, `status`: characters, numbers and the status alphabet.

`app/` is the ordinary Rust around it: the drive, the files and the threads,
through libfreemkv.
