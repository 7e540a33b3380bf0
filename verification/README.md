# Orbirus

A native Windows desktop organizer. Orbirus draws translucent, labeled panels
("fences") on the desktop and groups the desktop's icons inside them. Files are
never moved or renamed: which fence shows an item is an assignment in Orbirus's
own layout, by path.

## Layout of the project

- `src/` is the library: everything that Orbirus decides and computes, written
  in Verus with contracts that are proved. It does no input or output; all it asks
  of the system is where settings are kept.
- `tests/` runs the library on concrete values.
- `app/` is the program around it: windows, drawing, files and the registry.

| Module | What it holds |
| --- | --- |
| `config` | the layout: fences, ids, the catch-all fence, loading |
| `rules`, `desktop`, `sorting` | sorting rules, following the Desktop folders, "Sort Unsorted now" and its undo |
| `layout` | drops, deleting, renaming, following windows, appearance |
| `fence` | the state of a fence window and what each event does to it |
| `geometry`, `input` | snapping, pushing fences away, hit tests, message parameters |
| `menu`, `dialog`, `rules_ui` | menus, settings, dialogs and their commands |
| `startup`, `snapshots` | arguments, the first layout, snapshots of the layout |
| `icons`, `render`, `color` | pixels, names and cells of the grid, colors |
| `text`, `number`, `list`, `path` | texts, numbers, lists and paths |

Public proof functions whose names begin with `law_` state what holds across
functions: that a drop, a sort and an undo lose nothing, that an undo restores,
that matching ignores case, that the rules decide, and so on.

Numbers that the program keeps as floating-point numbers (opacity, corner
radius) are carried through the library by their bit patterns.
