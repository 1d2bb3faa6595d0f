# combatlog

Combat logs of World of Warcraft: live tailing, report uploads, and the management
of log files on disk. `src/` is a library that Verus verifies; every function states
what it does in its contract.

## Modules

- `tail`, `tail_laws`: the live tail. Which file to read, when to upload, when to force
  the parser to commit a fight, and what holds of every run.
- `uploader`, `uploader_laws`: the upload of one part of a live log.
- `retry`: retries of live requests.
- `session`: the course of a live session, and which session is the running one.
- `journal`, `messages`: what the journal and the user are told.
- `report`, `report_laws`: the upload of a finished log in batches.
- `chunk`: complete lines from the bytes of a growing file.
- `discover`: the log that the game is writing.
- `fights`: time spans, fingerprints and slivers of fights.
- `split`, `archive`, `names`: a file for each session, a zip for each file, and new
  names for both.
- `listing`: logs of a folder and guilds of an account.
- `clock`, `json`, `pattern`: the clock, `serde_json` and `regex`, with what is relied
  on stated at each call.
- `text`, `numbers`: strings and decimal numbers.

## Layout

The state machines never wait. `app/` performs what they ask for: it reads files, writes
zips, and talks over standard input and output with the desktop window, which shows the
progress, reaches the site and runs the log parser. `tests/` runs the library on
concrete values.
