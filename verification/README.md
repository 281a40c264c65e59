# risc_v_emulator_rust

A RISC-V (RV32I + M) emulator core whose behaviour is specified and proved with Verus.

- `src/instructions`: instruction decoding (`decode`), the meaning of each operation on
  register values (`semantics`), and execution on a `CpuData`, a hart with a directly
  addressed 4 MiB memory (`read_ins`, `executable`).
- `src/memory`: little-endian loads and stores on byte slices.
- `src/bus`: the physical address space: 128 MiB of RAM at `0x8000_0000` and a UART at
  `0x1000_0000` whose console input and output are queues; a read of its receive register
  waits for input, so it is only made once a byte is queued.
- `src/cpu`: the `Cpu` of the full system, which executes the same instructions through the
  bus, and Sv39 address translation (`cpu::mmu`).
- `src/emulator`: a `Cpu` and its `Bus`, with fetch-and-execute.
- `src/mmu`: bare-mode translation for a `CpuData`.
- `app/`: the program that runs `program.bin` word by word, and the SDL2 display helpers.

Every executable function in `src/` states in `requires` the inputs on which it cannot
fault (unimplemented opcodes and funct codes, overflowing offsets, unmapped addresses)
and in `ensures` its exact effect. Division by zero and signed overflow give the RV32M
results, and x0 always reads 0.
