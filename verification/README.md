# FileSpace

A Windows file manager that shows what Explorer shows. Its decisions are verified with Verus.

- `src/` is the verified library. It takes what the shell answers as plain values and says what
  follows: how a folder's entries read, which effect a drop has, what a view, sort or group
  setting is kept as, what a menu holds and what a command in it leads to, which cached image is
  shown, where the snap layout strip lies. Every function states in its contract what it returns.
- `app/` is the program around it: the calls into the shell, the threads, the files and the
  commands that the window calls.
- `tests/` runs the library on concrete values.

| Module | What it decides |
| --- | --- |
| `text`, `numerals`, `wide`, `guid` | text, numbers as text, UTF-16, GUIDs |
| `text_map` | a map from text to values |
| `shell_items` | entries, columns, breadcrumbs, the sidebar, the details pane |
| `shell_bags` | what is kept of a folder's view, sort and group, and what it defaults to |
| `shell_group` | groups of entries and their order |
| `shell_icons` | images as data URLs, and the caches that keep them |
| `shell_menu`, `shell_modern` | menus, what is shown of them, and what their commands do |
| `drag_drop` | effects and descriptions of a drag, and the state of a drag session |
| `shell_thread`, `shell_watch` | who answers a message of the helper window, and which folder is watched |
| `snap_layout` | the windows over the caption, and what a mouse message on them means |
| `commands` | the path to start with, and the drive to format |

The laws that relate several functions are the public proof functions named `law_..` in each
module.
