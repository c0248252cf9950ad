# dtwin

A driver twin: a behavioural model of ARM Cortex-M microcontrollers, on which
firmware runs without hardware. The library is written in Verus, and every
function of it is proved to do what its contract says.

| module                  | what it holds                                               |
|-------------------------|-------------------------------------------------------------|
| `bits`, `text`          | words as numbers, numbers as text                           |
| `cpu`                   | core models and the registers of a core                     |
| `memory`                | memory map, protection, watchpoints, flash                  |
| `peripheral`, `uart`    | bus devices; the CMSDK APB UART                             |
| `system`, `nvic`        | system control block with SysTick; interrupt controller     |
| `register`              | register descriptions                                       |
| `engine::decode`        | ARMv7E-M instructions from their encodings                  |
| `engine::exec`          | execution; `alu`, `media`, `special`, `transfer`, `vfp` hold the groups |
| `engine::dsp`, `fpu`    | saturating and packed arithmetic; floating point            |
| `engine::softfloat`     | binary floating point on bit patterns                       |
| `engine::engine`        | fetch, exceptions, runs                                     |
| `engine::turns`         | why a run comes to an end                                   |
| `engine::laws`          | what holds of the engine as a whole                         |
| `loader`                | ELF files                                                   |
| `chip`                  | chip profiles and their validation                          |
| `gdb`                   | settings of a debug server                                  |

Contracts are stated over models: `MemoryModel` for the memory map, `NvicModel`
for the interrupt controller, `Machine` for an engine and all it works on. An
instruction is a function from the core and the memory to their next states; a
floating point result is the exact fraction, rounded.

`app/` is the command line tool around the library: arguments, files, terminal.
