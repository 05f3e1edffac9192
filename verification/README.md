# v4l2top

An `htop`-like utility to show v4l2 mem2mem hardware and memory usage.

The kernel has to tell about its V4L2 streams: their busy time in
`/proc/<pid>/fdinfo/<fd>`, and their buffers in the `mem` files below
`/sys/kernel/debug/v4l2/`.

- `src/` is the library, verified with Verus: how the kernel's texts are read, how the usage of
  each stream is followed, and what the bars, the chart and the table show.
- `app/` is the program: it asks the kernel, computes the usage in percent and draws the screen.
- `tests/` runs the library.

## Keys

| Key         | What it does                             |
|-------------|------------------------------------------|
| F2          | usage as bars or as a chart              |
| F3          | sizes in short or in bytes               |
| F4          | name of the command or whole command line |
| Up, Down    | select a stream                          |
| q, Ctrl-C   | quit                                     |
