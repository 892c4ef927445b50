# alacritree

The decisions behind the alacritree terminal, written in Verus and proved
against their contracts.

- `src/` is the verified library: the OSC sequences read off the PTY stream
  (`osc`), the PTY tap and the console-pipe staging (`tap`, `rearm`), the
  terminal row (`row`), diagnostics file naming and the crash recorder's
  state machine (`logdir`, `crash_log`, `crashes`), clipboard images
  (`clipboard`), the ablation switches and synthetic typist (`diag`), the
  stall probe's figures and watchdog (`stall`), pointer hiding (`mouse`),
  font fallback bookkeeping (`faces`), the Windows child environment block
  (`env_block`) and the sidebar's upstream tooltip (`upstream`).
- `app/` is the process around it: environment, clock, files, threads and
  egui.  It gathers the library's inputs and carries out what it returns.
- `tests/` runs the library on concrete values.
