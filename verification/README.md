# kernel

The verified core of a small RISC-V (S-mode, OpenSBI) kernel, written in Verus.

- `src/fdt`: the flattened device tree. `check_magic` checks the big-endian
  magic; `find_uart_base` walks the structure block to the first node that
  closes with a `compatible` naming `ns16550a` or `snps,dw-apb-uart` and a
  `reg`, and decodes its address; `find_timebase_frequency` finds the
  `timebase-frequency` of the `cpus` node. Both walks are specified by
  recursive spec functions over the blob's bytes (`uart_walk`,
  `timebase_walk`) and proved against them. `src/fdt/nop.rs` proves that
  inserting a nop token at a boundary between tokens of the structure block
  changes neither walker's result, with the strings block moved along (when it
  lies past the insertion) or kept in place (when it lies before), whether the
  walk stops before the insertion or goes on past it, provided what the walk
  reads does not run across the insertion point (`uart_nop_fits`,
  `timebase_nop_fits`). The one case left out is a `#address-cells` or
  `#size-cells` property with fewer than four value bytes just before the
  insertion, whose cell word is read across it.
- `src/sbi`: SBI error codes, the `ecall` each service makes, and what the
  answer means.
- `src/timer.rs`: setting up the periodic timer (keeping the tick count),
  turning the SBI's answer to the first deadline into the outcome, and choosing
  each next deadline.
- `src/arch/riscv64/trap.rs`: the trap frame and the trap decision.
- `src/drivers/uart.rs`: the UART transmit protocol (poll the line status,
  write one byte when the holding register is empty); writing two strings
  puts out the bytes of their concatenation.

`app/` is the host front end: it reads a `.dtb` file and runs the boot-time
discovery. `app/hw.rs` holds the machine side (inline assembly for the boot
trampoline, trap entry, CSRs, `ecall`, `rdtime` and UART registers) and is
built only for `riscv64`.
