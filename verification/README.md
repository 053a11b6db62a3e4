# Resonate

A soundboard for GNOME with a PipeWire virtual microphone and real-time effects on the
mic. Sounds are played at once or one after the other, mixed with the voice, and sent to
a microphone that other programs can choose.

The rules of the program are a library verified with [Verus](https://github.com/verus-lang/verus):
every function states what it returns or changes, and the proofs are checked by the
verifier. The windows, devices and files around it are ordinary Rust.

## Layout

```
src/                 the verified library
  scalar.rs          single-precision numbers by their bit patterns
  rounding.rs        rounding to the nearest number, over integers
  arithmetic.rs      sums, products, quotients, whole parts
  root.rs            square roots
  double.rs          double-precision quotients, products and fractions
  text.rs number.rs path.rs order.rs search.rs text_map.rs
  config.rs          settings, effect chains, presets
  audio/             playback and mixing, ticks, waveforms, capture, sample queues, routing
  plugins/           effects, controls, presets, ready-made chains, hosting
  ui/                panel, soundboard page, editor, effects page, settings page
  window.rs          what the window does with sounds, chains and presets
  transfer.rs        how files are moved
  tray.rs hotkeys.rs
tests/               tests of the library
app/                 GTK 4 and Libadwaita windows, rodio, PipeWire, LV2, D-Bus
```

## What is proved

- Mixing adds up every sound at its place, faded in and out, cut off at full scale; two
  short mixes give the same as one long mix.
- A tick takes its steps in order and ends: what waits is tried in turn until one sound
  starts, and when the mix is made something plays or nothing waits.
- A flush silences what waits before the next buffer is filled, and nothing is lost or
  repeated between two buffers.
- A file on its way to another place is never lost.
- The queue of samples keeps the newest ones and hands them out in order.
- The virtual microphone never captures itself.
- A chain that was loaded from a preset is shown as that preset until it is edited, and
  again when the edit is undone.
- The order of the tiles comes back after a restart, and no file is lost on the way.
- Settings follow a sound when its file is renamed or moved, and so does what plays or
  waits.
- A start marker for one play is used once.
- The names of sounds cannot break the markup of the panel.
- Effects are applied in the order of the chain, and the presets that come with a built-in
  effect fit its controls. A noise gate lets a block through or silences all of it.

The numbers behind volumes, samples and times are IEEE 754 single precision, and positions
in a file are calculated in double precision. The library does all of this in integers,
with the rounding that the standard prescribes. Sines, powers and hyperbolic tangents are
left to the machine: an effect says what it needs, and takes the results with the block of
samples.
