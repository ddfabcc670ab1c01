# perlink

A browser chooser: given a link (or the links found in window titles and on the
clipboard), it offers one button per stored browser and opens the link with the
browser that is picked.

- `src/` is the verified library: splitting and flipping browser names, the
  stable case-insensitive order of the browser buttons, the command-line
  actions, the window's reactions to button presses, the processes that open a
  link, the browsers stored by `reinit`, the browsers found in the Windows
  registry, and the registry values that register the chooser as a link
  handler.
- `app/` is the program around it: the window, stored preferences, the
  registry, the clipboard, the link-expansion service and process spawning.
- `tests/` runs the library on concrete values.
