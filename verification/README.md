# BOREAL

BOREAL inventories what a person keeps in several places (local folders, Google Drive
and Groups, a Keeper vault) and helps move local files to a Shared Drive.

- `src/` is the verified library. Every rule of the program lives there with its
  contract: exclusion rules and folder sizes of a scan, snapshot comparison, Keeper and
  Groups listings and their orders, note rendering, the Google sign-in and token
  refresh, the Rclone remote setup, migration plans and upload plans, update checks.
  Work that alternates with the outside world (HTTP, Rclone runs, a browser sign-in)
  is written as state machines: a start function and a `step` from event to the next
  action. Public proof functions named `law_…` state what holds across calls.
  Calls into outside crates (Markdown parsing and HTML, sanitizing, URL parsing,
  hashing, JSON, path handling) go through small trusted wrappers that only convert
  values; their contracts name what the crate returns.
- `app/` is the program around it: files, SQLite, HTTP, processes, threads and the
  web server. It performs the actions the library asks for and reports the events.
- `tests/` runs the library on concrete values.
