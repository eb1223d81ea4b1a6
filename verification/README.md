# project_tracker

A small tracker for personal projects: each project has a goal, a status, a
progress figure and a current task, a list of tasks that are to do or done,
and a daily log of what was done and what comes next.

`src/` is the verified library. `Database` holds the three tables and every
operation on them (creating, reading, editing, archiving and deleting
projects; adding, toggling and deleting tasks; adding and deleting log
entries; searching; exporting and importing), each with a contract over the
plain-value model in `state.rs`. `session.rs` holds what the screens show and
how each user action changes it. `laws.rs` and `roundtrip.rs` prove what holds
across operations.

`app/` is the desktop program around it: the egui screens, the SQLite file the
store is kept in, the clock, file dialogs and JSON.
