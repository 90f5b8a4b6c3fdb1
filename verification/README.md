# firefly_chip8

A CHIP-8 interpreter for Firefly Zero whose core is verified with Verus.

- `src/opcodes.rs`: decoding of 16-bit instruction words.
- `src/machine.rs`: the mathematical machine: its state and what every
  instruction, cycle and update does to it.
- `src/interpreter.rs`: the executable machine, proved to follow the model.
- `src/config.rs`: the `config` file format (speed and key bindings).
- `src/display.rs`: fading pixels and the tone that follows the sound timer.
- `src/laws.rs`: properties that span several instructions.
- `app/main.rs`: the Firefly Zero entry points (`boot`, `update`, `render`),
  reading files, peers, pads and buttons, drawing and playing audio.
