# PSXcel

A gamepad-driven spreadsheet for the PlayStation 1: 26 columns by 50 rows,
formulas with cell references and ranges, fill and paste that move references,
row and column insertion, undo, charts, and saves on a memory card.

The library under `src/` is written and proved in Verus. It holds no I/O: a tick
of the interface takes what the pad said and gives back what is asked of the
memory card, and a frame is a list of things to draw. `app/` is the program
around it, on the console's pad, keyboard, card and GPU.

| Modules | What they are |
|---|---|
| `ascii`, `decimal`, `fixed`, `number` | bytes, digits, fixed-point values and their texts |
| `grid`, `formula`, `grammar`, `alike` | the cells, the grammar of formulas and their meaning |
| `refs`, `repoint`, `follow`, `restore` | moving references, and what stays the same when they move |
| `trace`, `calc`, `sheet`, `sheet_laws` | recalculation and the sheet's operations |
| `save`, `card` | the save format and the files of a card |
| `modes`, `samples`, `editor`, `update` | the interface's state and what the pad does to it |
| `labels`, `theme`, `highlights`, `canvas` | texts, colours and the display list |
| `panels`, `view`, `chart`, `render` | what a frame shows |

Contracts speak of plain models: a `Grid` for a sheet, a `Desk` for the
interface, a sequence of `Mark`s for a frame. The laws of the library are the
proof functions whose names start with `law_`.
