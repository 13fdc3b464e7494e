# nalu

A terminal waveform viewer for VCD files: a netlist browser, a list of
signals that a Python configuration script can fill and save, and a
waveform pane drawn row by row.

The library under `src/` holds the viewer's logic with Verus contracts:

- `widgets/browser.rs`: the tree browser (paths, selection, scrolling, the
  lines it draws) and its ordering and condensing laws.
- `widgets/waveform.rs`: a signal's row in the waveform pane, column by
  column, over a model of the waveform's timestamps and signal changes.
- `state/`: the state of the viewer and of each pane (netlist, signals,
  waveform), the name filter, the time range and its ruler.
- `python/`: the configuration nodes, the generated configuration code and
  how it is split from and merged into a file, the drawing buffer of
  interactive scripts, bit vectors as scripts read them.
- `tui_layout/`, `resize.rs`, `component.rs`, `view.rs`: layout arithmetic.
- `text.rs`: the string helpers the rest is built on.

`app/` is the program around it: the terminal, the event loop, loading the
VCD file in the background, the Python interpreter, and the tiling layout.
