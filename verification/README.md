# resh

Resilient SSH sessions: persistent shells on remote hosts that survive
connection drops, and their cleanup when a window is closed.

- `src/` is the library, verified with Verus. It writes the commands and scripts
  that run on the remote host, reads what they print, and decides what the log of
  pending closes holds. Procedures that talk to a host, the disk or the user are
  step machines: each step names one thing to do, and the reply to it gives the
  next step.
- `app/` does what the steps say: SSH requests, files, prompts, signals.
- `tests/` runs the library on concrete values.

## What is proved

Besides the exact result of every function, the library states laws that span
them, as public proof functions beside the code they are about:

- quoted values and remote paths reach the remote shell as exactly one word each,
  over a model of POSIX word splitting (`shell`, `posix`, `cmd`, `upload`, `init`);
- shell integration changes the shell hooks alone (`init`);
- sessions are killed one request at a time, and a failed connection ends the
  requests (`session`);
- an upgrade touches nothing before the local binary was found and the user said
  yes, and uploads land beside the old binary (`install`);
- a close is written to the log before the session is killed, leaves the log only
  after that, and is replayed on the next connect until it succeeds (`wal`);
- however many close signals arrive, the close is acted on once (`signal`).

## What is trusted

`str::to_lowercase` and `String::push` of the standard library (`text`), and, with
nothing claimed of their results, `hostname::get` and `rand::random` (`session`).
