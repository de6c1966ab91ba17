# booktui

The core of a terminal audiobook player for Linux, written in Rust and verified with Verus, with the
terminal program around it.

- `src/` is the library. Every function in it carries a contract that Verus proves, except the few
  that are taken on trust (see below).
  - `app`, `input`, `playback`, `pointer`, `bookmarks`, `chapters`: the state of the application,
    and what keys, the mouse, the sound output and the passing of time do to it. An event leads
    from one state to the next and to a list of actions for the program to perform.
  - `browse`, `library`, `storage`, `player`: how the library is shown and scanned, what outlives a
    run, and what is being played.
  - `media`: which files can be handed to the library that reads their tags.
  - `layout`, `ui`: the division of the screen and the texts on it.
  - `editor`, `complete`: the line editor and the completion of directories.
  - `keyed`, `order`, `paths`, `encoding`, `text`, `time`: what the rest is built from.
  - `laws`, `browse_laws`, `complete_laws`, `path_laws`, `storage_laws`: what holds of all of it
    together.
- `app/` is the program: the event loop, files, directories, drawing and sound.
- `tests/` runs the library on concrete values.

## Controls

- `a` adds a library directory, `d` removes the one that the selected file lies in, `r` scans again.
- `/` filters the library, `s` cycles through the sort modes.
- `Up` and `Down` or `k` and `j`, `PageUp` and `PageDown` move the selection; `Enter` plays.
- `Space` pauses and resumes; `Left` and `Right` or `h` and `l` seek; `-` and `=` set the volume.
- `e` asks for a place to seek to (`1m`) or a time to seek by (`-30s`, `+1h2m3s`); `u` undoes a seek.
- `t` sets the sleep timer, which counts only while playback runs.
- `o` and `p` play slower and faster.
- `b` adds a bookmark, `B` lists the bookmarks of the file.
- `c` and `v` go to the previous and to the next chapter, `C` lists the chapters. They are read from
  `m4b` files through `ffprobe`, where it is installed.
- Marks on the timeline show where bookmarks lie and where chapters begin.
- `q` quits.
- Clicking or dragging on the timeline seeks when the button is released; the volume bar acts at
  once.

## What is taken on trust

The contracts of a few functions of the standard library and of two crates are stated and not
proved: `String::push`, `std::str::from_utf8` and `String::from_utf8_lossy`; the division of an area
by `ratatui`, which is described for the kinds of division that are used here; and the tags that
`symphonia` reads from a media file, which are named and not described. Files that `symphonia` would
panic on are found out and not handed to it.
