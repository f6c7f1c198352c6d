# file_tree

A verified model of a file tree side panel for a text editor: which rows a tree
of directories shows, how keys and the mouse move through it, how paths are
revealed in it, and what is drawn where.

The library in `src/` does no input or output. Where it needs a directory that
was not read yet, it names it; the host reads it, hands over the listing, and has
the rows rebuilt. Where a file is to be opened, it says so. What is to be drawn
comes back as a list of strings and styled areas.

- `path`: paths as sequences of components, and sets of paths
- `listing`: directory listings by directory
- `tree`: the rows that a tree shows, and facts about them
- `input`: keys, mouse events, screen areas, key bindings
- `model`: what the state of a panel stands for, and what each event does to it
- `panel`: the panel; its parts for keys, the mouse and drawing
- `draw`: drawing steps and styles
- `laws`: what holds of the panel as a whole

`app/` connects the panel to an editor and its screen.
