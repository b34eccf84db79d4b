# cosmic-nas-indicator

A COSMIC panel applet that shows **NAS** in the panel, colored by whether a
NAS is reachable (TCP probe) and whether its SMB share is mounted, with a
right-click menu to mount/unmount the share, edit the settings and adjust
the label's font size.

The decisions are a Verus-verified library under `src/`:

- `text` — trimming, line splitting, `=` splitting and decimal numbers, each
  proved to match its specification (the behaviour of the std functions the
  applet relies on);
- `config` — reading the `KEY=VALUE` settings file and writing it back with
  known keys rewritten in place and other lines kept;
- `persistence` — proofs that saved settings read back unchanged;
- `reading` — proofs that a line added at the end of a file that sets
  nothing changes nothing, and that a valid later setting overrides;
- `resaving` — proofs that unrelated lines survive a save in order, and
  that saving twice writes the same text;
- `mounts` — the mount/umount command lines, the message shown for their
  outcome, and the `/proc/mounts` lookup;
- `applet` — the applet state and its response to each event (next state
  and effects to carry out), the label color, the tooltip and the menu;
- `behaviour` — proofs of properties that hold in every state.

`app/main.rs` is the COSMIC program around it: file and network I/O,
running commands, the widgets, and the floating-point label font size.
