# marginalia

The verified core of a small x86_64 kernel's display: VGA mode 13h as a
320 x 200 page of palette indices, with notes set in 8 x 8 `font8x8` glyphs
along the bottom line and scrolled upwards.

- `src/graphics.rs` — the page model (`Page`), the writer that sets glyphs
  and scrolls (`Writer`), the display as the kernel holds it (`Display`), the
  note functions and the palette, each with its contract.
- `src/laws.rs` — properties that span writes: where glyphs land, how lines
  rise, how many lines a note takes, what k new lines do, that a
  note's ink colours only its glyphs, and that the page is only ever painted with paper and the two inks.
- `src/boot.rs` — the boot sequence, as the annotations it writes.
- `src/vga.rs` — the port accesses that enter mode 13h, step by step, with
  the CRT controller unlock computed from the values read back.
- `src/font.rs` — the trusted reads of the `font8x8` legacy tables.
- `app/` — the hardware side: playing the mode's port accesses and the palette bytes onto the ports, the
  framebuffer copy, the shared display, the serial console and the test
  harness's exit device.
