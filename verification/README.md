# mediahubsync

A desktop tool that keeps folders in sync with a media server. The library
under `src/` holds its logic, verified with Verus:

- `paths`: the names inside a Windows file-system path (file name,
  extension, the short `\parent\name` form shown in the form);
- `config`: the configuration and its folder entries (lookup, removal,
  addition, the token, what to do with the configuration file);
- `requests`: which folders a synchronisation covers, how each is described,
  and where the request goes;
- `ui`: the state of the form and what its buttons decide;
- `watcher`: which file changes lead to a synchronisation.

`app/` is the program around it: file and network I/O, the file watcher and
the window. `tests/` runs the library on concrete values.
