# rmk_matrix

Key matrix scanning for a keyboard firmware, verified with Verus.

- `src/` is the verified library. Each kind of matrix is a state machine:
  `Matrix` (a row/column matrix of switches, with optional `col2row` wiring
  and an interrupt-driven idle mode), `MuxMatrix` (keys read through analog
  multiplexers and an ADC) and `TestMatrix` (a stand-in that presses and
  releases one key). A step takes the outcome of the last action (a pin
  level's debounced verdict, ADC readings) and returns the next action
  (drive a pin, wait, sample a key, report an event). `matrix_laws.rs` and
  `mux_laws.rs` state and prove what holds over steps and whole rounds.
- `app/` carries the actions out on real hardware with `embedded-hal` pins,
  `embassy-time` timers and, for the multiplexed matrix, the STM32G4 ADC of
  `embassy-stm32`.
- `tests/` runs the state machines on concrete scans.
