# livepaper

The verified core of a desktop live-wallpaper app for Windows: a video or image is
played behind the desktop icons on each screen, paused while an application covers
the screen, and the wallpaper folder can be browsed, imported into and optimized.

`src/` holds the logic, each function with a contract proved by Verus:

- `path`: Windows path text (file names, extensions, joining, parents, components).
- `gallery`: which files are listed and how, cover and metadata locations, naming of
  imported and backed-up files, cover data URLs, confinement to the wallpaper folder.
- `fullscreen`: which screens are covered by an application window, and the pause and
  resume events of each poll.
- `wallpaper`: screen labels, what each screen shows, restoring at start-up, window
  styles and placement.
- `transcode`: the target of an optimization, which frames are kept, where the output
  and the backup go, how the outcome is reported.
- `settings`, `probe`, `tray`, `strmap`, `text`: settings and folders, video metadata
  unpacking, tray menu actions, a string-keyed map, character helpers.

`app/` is the Tauri application around it: windows, Win32 and Media Foundation calls,
file I/O, threads and events. `tests/` runs the library on concrete values.
