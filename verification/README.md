# genpack-install

A disk installer for genpack images with a window that can be drawn without a window system.
What it decides is a library verified with Verus; the program around it does what the library
asks for.

## The library (`src/`)

| Module | What it decides |
|---|---|
| `backend` | the data of disks, images, options and reports; sizes in words |
| `disks` | which disks may be installed on: nothing that a mounted device lies on |
| `images` | which files are images, which of them are offered, what is known of them |
| `machine`, `mock` | the two backends: the machine itself, and one that touches nothing |
| `install`, `install_laws` | an installation, step by step, and what holds of every one |
| `bootloader`, `sbc`, `walk` | boot loaders, boot files of single-board computers |
| `layout`, `settings` | partitions, file systems, `system.ini`, suggested settings |
| `copying`, `mounting`, `command` | copying the image, mounting, how commands end |
| `display`, `terminal`, `session` | scale, key repeat, what is chosen and shown |
| `effects` | what is asked of the outside world, and what it answers |
| `text`, `split`, `number`, `path` | text, numbers and paths |

Procedures that need the outside world are state machines. Each says in `request` what is to
be done next, and is told in `answer` what came of it. Their contracts give both as functions
of the state, so that what holds of a whole run can be proved: public proof functions whose
names begin with `law_` state it.

The library uses no floating-point numbers. Where a scale or a size is rounded as a float
would be, the rounding is written out in integers.

## The program (`app/`)

`perform` does what is asked for, `backends` reads from the machine, `screen` and `terminal`
drive the display and the terminal page, `ui` is the window.

    genpack-install [--mock] [--wait-for-display]

`--mock` touches nothing. `--wait-for-display` waits until a display is connected. The crate
`slint` is listed without a backend and a renderer; a build for a machine selects them, for
example `backend-linuxkms` and `renderer-femtovg`. The terminal page needs the crate
`slint_terminal`.
